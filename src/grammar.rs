use vstd::prelude::*;
use crate::token::{TokenType, TokenView};
use crate::ast::{ExprV, StmtV};

verus! {

// The grammar as spec functions over a token sequence. Each one takes a position and
// returns what was parsed there (`None` on a syntax error) and the position it stopped
// at, which later steps of recovery read on.

pub open spec fn kind_at(t: Seq<TokenView>, p: int) -> TokenType {
    if 0 <= p < t.len() { t[p].kind } else { TokenType::EOF }
}

pub open spec fn at_end(t: Seq<TokenView>, p: int) -> bool {
    kind_at(t, p) == TokenType::EOF
}

pub open spec fn check(t: Seq<TokenView>, p: int, k: TokenType) -> bool {
    !at_end(t, p) && kind_at(t, p) == k
}

/// A position known to stand in `[lo, hi]`.
pub open spec fn fix(q: int, lo: int, hi: int) -> int {
    if q < lo { lo } else if q > hi { hi } else { q }
}

/// The position after any run of semicolons.
pub open spec fn skip_semicolons(t: Seq<TokenView>, p: int) -> int
    decreases t.len() - p,
{
    if 0 <= p < t.len() && kind_at(t, p) == TokenType::Semicolon {
        skip_semicolons(t, p + 1)
    } else {
        p
    }
}

pub open spec fn lit(s: Seq<char>) -> ExprV {
    ExprV::Literal(s)
}

pub open spec fn boxed(e: ExprV) -> Box<ExprV> {
    Box::new(e)
}

pub type PExpr = (Option<ExprV>, int);

pub type PStmt = (Option<StmtV>, int);

pub open spec fn expression(t: Seq<TokenView>, p: int) -> PExpr
    decreases t.len() - p, 40int,
{
    if !(0 <= p < t.len()) { (None, p) } else { assignment(t, p) }
}

pub open spec fn assignment(t: Seq<TokenView>, p: int) -> PExpr
    decreases t.len() - p, 39int,
{
    if !(0 <= p < t.len()) { (None, p) } else {
        let (e, q0) = or_expr(t, p);
        let q = fix(q0, p, t.len() - 1);
        if e is None {
            (None, q)
        } else if check(t, q, TokenType::Equal) {
            let (v, q1) = assignment(t, q + 1);
            if v is None {
                (None, q1)
            } else {
                match e.unwrap() {
                    ExprV::Variable(name) => (Some(ExprV::Assign(name, boxed(v.unwrap()))), q1),
                    _ => (None, q1),
                }
            }
        } else {
            (e, q)
        }
    }
}

pub open spec fn or_expr(t: Seq<TokenView>, p: int) -> PExpr
    decreases t.len() - p, 38int,
{
    if !(0 <= p < t.len()) { (None, p) } else {
        let (e, q0) = and_expr(t, p);
        let q = fix(q0, p, t.len() - 1);
        if e is None { (None, q) } else { or_rest(t, q, e.unwrap()) }
    }
}

pub open spec fn or_rest(t: Seq<TokenView>, p: int, left: ExprV) -> PExpr
    decreases t.len() - p, 37int,
{
    if !(0 <= p < t.len() - 1) { (Some(left), p) } else if check(t, p, TokenType::Or) {
        let sub = and_expr(t, p + 1);
        let r = sub.0;
        let q = fix(sub.1, p + 1, t.len() - 1);
        if r is None {
            (None, q)
        } else {
            or_rest(t, q, ExprV::Logical(boxed(left), t[p], boxed(r.unwrap())))
        }
    } else {
        (Some(left), p)
    }
}

pub open spec fn and_expr(t: Seq<TokenView>, p: int) -> PExpr
    decreases t.len() - p, 36int,
{
    if !(0 <= p < t.len()) { (None, p) } else {
        let (e, q0) = ternary(t, p);
        let q = fix(q0, p, t.len() - 1);
        if e is None { (None, q) } else { and_rest(t, q, e.unwrap()) }
    }
}

pub closed spec fn and_rest(t: Seq<TokenView>, p: int, left: ExprV) -> PExpr
    decreases t.len() - p, 35int,
{
    if !(0 <= p < t.len() - 1) { (Some(left), p) } else if check(t, p, TokenType::And) {
        let sub = equality(t, p + 1);
        let r = sub.0;
        let q = fix(sub.1, p + 1, t.len() - 1);
        if r is None {
            (None, q)
        } else {
            and_rest(t, q, ExprV::Logical(boxed(left), t[p], boxed(r.unwrap())))
        }
    } else {
        (Some(left), p)
    }
}

/// One step of `and_rest`, for use where its definition is not visible.
pub proof fn lemma_and_rest(t: Seq<TokenView>, p: int, left: ExprV)
    ensures
        and_rest(t, p, left) == if !(0 <= p < t.len() - 1) {
            (Some(left), p)
        } else if check(t, p, TokenType::And) {
            let sub = equality(t, p + 1);
            let q = fix(sub.1, p + 1, t.len() - 1);
            if sub.0 is None {
                (None, q)
            } else {
                and_rest(t, q, ExprV::Logical(boxed(left), t[p], boxed(sub.0.unwrap())))
            }
        } else {
            (Some(left), p)
        },
{
}

pub open spec fn ternary(t: Seq<TokenView>, p: int) -> PExpr
    decreases t.len() - p, 34int,
{
    if !(0 <= p < t.len()) { (None, p) } else {
        let (c, q0) = equality(t, p);
        let q = fix(q0, p, t.len() - 1);
        if c is None || !check(t, q, TokenType::Qmark) {
            (c, q)
        } else {
            ternary_branches(t, q + 1, c.unwrap())
        }
    }
}

/// The two branches of a conditional expression, after its `?`.
pub open spec fn ternary_branches(t: Seq<TokenView>, p: int, c: ExprV) -> PExpr
    decreases t.len() - p, 34int,
{
    if !(0 <= p < t.len()) { (None, p) } else {
        let (a, q1) = primary(t, p);
        let q2 = fix(q1, p, t.len() - 1);
        if a is None || !check(t, q2, TokenType::Colon) {
            (None, q2)
        } else {
            let (b, q3) = ternary(t, q2 + 1);
            if b is None {
                (None, q3)
            } else {
                (Some(ExprV::Ternary(boxed(c), boxed(a.unwrap()), boxed(b.unwrap()))), q3)
            }
        }
    }
}

pub open spec fn is_equality_op(k: TokenType) -> bool {
    k == TokenType::BangEqual || k == TokenType::EqualEqual
}

pub open spec fn is_comparison_op(k: TokenType) -> bool {
    k == TokenType::Greater || k == TokenType::GreaterEqual || k == TokenType::Less
        || k == TokenType::LessEqual
}

pub open spec fn is_term_op(k: TokenType) -> bool {
    k == TokenType::Minus || k == TokenType::Plus
}

pub open spec fn is_factor_op(k: TokenType) -> bool {
    k == TokenType::Slash || k == TokenType::Star
}

pub open spec fn equality(t: Seq<TokenView>, p: int) -> PExpr
    decreases t.len() - p, 33int,
{
    if !(0 <= p < t.len()) { (None, p) } else {
        let (e, q0) = comparison(t, p);
        let q = fix(q0, p, t.len() - 1);
        if e is None { (None, q) } else { equality_rest(t, q, e.unwrap()) }
    }
}

pub open spec fn equality_rest(t: Seq<TokenView>, p: int, left: ExprV) -> PExpr
    decreases t.len() - p, 32int,
{
    if !(0 <= p < t.len() - 1) { (Some(left), p) } else if !at_end(t, p) && is_equality_op(kind_at(t, p)) {
        let sub = comparison(t, p + 1);
        let r = sub.0;
        let q = fix(sub.1, p + 1, t.len() - 1);
        if r is None {
            (None, q)
        } else {
            equality_rest(t, q, ExprV::Binary(boxed(left), t[p], boxed(r.unwrap())))
        }
    } else {
        (Some(left), p)
    }
}

pub open spec fn comparison(t: Seq<TokenView>, p: int) -> PExpr
    decreases t.len() - p, 31int,
{
    if !(0 <= p < t.len()) { (None, p) } else {
        let (e, q0) = term(t, p);
        let q = fix(q0, p, t.len() - 1);
        if e is None { (None, q) } else { comparison_rest(t, q, e.unwrap()) }
    }
}

pub open spec fn comparison_rest(t: Seq<TokenView>, p: int, left: ExprV) -> PExpr
    decreases t.len() - p, 30int,
{
    if !(0 <= p < t.len() - 1) { (Some(left), p) } else if !at_end(t, p) && is_comparison_op(kind_at(t, p)) {
        let sub = term(t, p + 1);
        let r = sub.0;
        let q = fix(sub.1, p + 1, t.len() - 1);
        if r is None {
            (None, q)
        } else {
            comparison_rest(t, q, ExprV::Binary(boxed(left), t[p], boxed(r.unwrap())))
        }
    } else {
        (Some(left), p)
    }
}

pub open spec fn term(t: Seq<TokenView>, p: int) -> PExpr
    decreases t.len() - p, 29int,
{
    if !(0 <= p < t.len()) { (None, p) } else {
        let (e, q0) = factor(t, p);
        let q = fix(q0, p, t.len() - 1);
        if e is None { (None, q) } else { term_rest(t, q, e.unwrap()) }
    }
}

pub open spec fn term_rest(t: Seq<TokenView>, p: int, left: ExprV) -> PExpr
    decreases t.len() - p, 28int,
{
    if !(0 <= p < t.len() - 1) { (Some(left), p) } else if !at_end(t, p) && is_term_op(kind_at(t, p)) {
        let sub = factor(t, p + 1);
        let r = sub.0;
        let q = fix(sub.1, p + 1, t.len() - 1);
        if r is None {
            (None, q)
        } else {
            term_rest(t, q, ExprV::Binary(boxed(left), t[p], boxed(r.unwrap())))
        }
    } else {
        (Some(left), p)
    }
}

pub open spec fn factor(t: Seq<TokenView>, p: int) -> PExpr
    decreases t.len() - p, 27int,
{
    if !(0 <= p < t.len()) { (None, p) } else {
        let (e, q0) = unary(t, p);
        let q = fix(q0, p, t.len() - 1);
        if e is None { (None, q) } else { factor_rest(t, q, e.unwrap()) }
    }
}

pub open spec fn factor_rest(t: Seq<TokenView>, p: int, left: ExprV) -> PExpr
    decreases t.len() - p, 26int,
{
    if !(0 <= p < t.len() - 1) { (Some(left), p) } else if !at_end(t, p) && is_factor_op(kind_at(t, p)) {
        let sub = unary(t, p + 1);
        let r = sub.0;
        let q = fix(sub.1, p + 1, t.len() - 1);
        if r is None {
            (None, q)
        } else {
            factor_rest(t, q, ExprV::Binary(boxed(left), t[p], boxed(r.unwrap())))
        }
    } else {
        (Some(left), p)
    }
}

pub open spec fn unary(t: Seq<TokenView>, p: int) -> PExpr
    decreases t.len() - p, 25int,
{
    if !(0 <= p < t.len()) { (None, p) } else if check(t, p, TokenType::Bang) || check(t, p, TokenType::Minus) {
        let (r, q) = unary(t, p + 1);
        if r is None { (None, q) } else { (Some(ExprV::Unary(t[p], boxed(r.unwrap()))), q) }
    } else {
        primary(t, p)
    }
}

pub open spec fn primary(t: Seq<TokenView>, p: int) -> PExpr
    decreases t.len() - p, 24int,
{
    if !(0 <= p < t.len()) { (None, p) }
    else if check(t, p, TokenType::False) { (Some(lit("false"@)), p + 1) }
    else if check(t, p, TokenType::True) { (Some(lit("true"@)), p + 1) }
    else if check(t, p, TokenType::Nil) { (Some(lit("nil"@)), p + 1) }
    else if check(t, p, TokenType::Number) || check(t, p, TokenType::String) {
        (Some(lit(t[p].text)), p + 1)
    } else if check(t, p, TokenType::LeftParen) {
        let (e, q0) = expression(t, p + 1);
        let q = fix(q0, p + 1, t.len() - 1);
        if e is None || !check(t, q, TokenType::RightParen) {
            (None, q)
        } else {
            (Some(ExprV::Grouping(boxed(e.unwrap()))), q + 1)
        }
    } else if check(t, p, TokenType::Identifier) {
        (Some(ExprV::Variable(t[p])), p + 1)
    } else {
        (None, p)
    }
}

pub open spec fn is_statement_start(k: TokenType) -> bool {
    k == TokenType::Var || k == TokenType::For || k == TokenType::If || k == TokenType::While
        || k == TokenType::Print
}

/// Where recovery after a failed declaration stops: past a semicolon, or before a
/// keyword that starts a statement, or at the end.
pub open spec fn synchronize(t: Seq<TokenView>, p: int) -> int {
    sync_from(t, if at_end(t, p) { p } else { p + 1 })
}

pub open spec fn sync_from(t: Seq<TokenView>, p: int) -> int
    decreases t.len() - p,
{
    if !(0 < p < t.len()) || at_end(t, p) || kind_at(t, p - 1) == TokenType::Semicolon
        || is_statement_start(kind_at(t, p)) {
        p
    } else {
        sync_from(t, p + 1)
    }
}

/// The statements of a whole token sequence, or `None` at the first syntax error.
pub open spec fn program(t: Seq<TokenView>) -> Option<Seq<StmtV>> {
    program_from(t, 0, seq![])
}

pub open spec fn program_from(t: Seq<TokenView>, p: int, acc: Seq<StmtV>) -> Option<Seq<StmtV>>
    decreases t.len() - p, 52int,
{
    if !(0 <= p < t.len()) || at_end(t, p) { Some(acc) } else {
        let (d, q) = declaration(t, p);
        if d is None || !(p < q < t.len()) { None } else { program_from(t, q, acc.push(d.unwrap())) }
    }
}

pub open spec fn block_from(t: Seq<TokenView>, p: int, acc: Seq<StmtV>) -> (Option<Seq<StmtV>>, int)
    decreases t.len() - p, 51int,
{
    if !(0 <= p < t.len()) { (None, p) }
    else if !check(t, p, TokenType::RightBrace) && !at_end(t, p) {
        let (d, q) = declaration(t, p);
        if d is None || !(p < q < t.len()) { (None, q) } else { block_from(t, q, acc.push(d.unwrap())) }
    } else if check(t, p, TokenType::RightBrace) {
        (Some(acc), p + 1)
    } else {
        (None, p)
    }
}

pub open spec fn declaration(t: Seq<TokenView>, p: int) -> PStmt
    decreases t.len() - p, 50int,
{
    if !(0 <= p < t.len()) { (None, p) }
    else if check(t, p, TokenType::Var) {
        let (d, q) = var_declaration(t, p + 1);
        (d, q)
    } else {
        let (s, q0) = statement(t, p);
        let q = fix(q0, p, t.len() - 1);
        if s is None { (None, synchronize(t, q)) } else { (s, q) }
    }
}

pub open spec fn statement(t: Seq<TokenView>, p: int) -> PStmt
    decreases t.len() - p, 49int,
{
    if !(0 <= p < t.len()) { (None, p) }
    else if check(t, p, TokenType::Print) { print_statement(t, p + 1) }
    else if check(t, p, TokenType::LeftBrace) {
        let (b, q) = block_from(t, p + 1, seq![]);
        if b is None { (None, q) } else { (Some(StmtV::Block(b.unwrap())), q) }
    }
    else if check(t, p, TokenType::If) { if_statement(t, p + 1) }
    else if check(t, p, TokenType::While) { while_statement(t, p + 1) }
    else if check(t, p, TokenType::For) { for_statement(t, p + 1) }
    else { expression_statement(t, p) }
}

pub open spec fn true_literal() -> ExprV {
    lit("true"@)
}

/// A `for` loop, written as the `while` loop it stands for.
pub open spec fn desugar_for(init: Option<StmtV>, cond: Option<ExprV>, inc: Option<ExprV>, body: StmtV) -> StmtV {
    let inner = match inc {
        Some(i) => StmtV::Block(seq![body, StmtV::Expression(i)]),
        None => body,
    };
    let c = match cond { Some(c) => c, None => true_literal() };
    let w = StmtV::While(c, Box::new(inner));
    match init {
        Some(s) => StmtV::Block(seq![s, w]),
        None => w,
    }
}

pub open spec fn for_statement(t: Seq<TokenView>, p: int) -> PStmt
    decreases t.len() - p, 48int,
{
    if !(0 <= p < t.len()) || !check(t, p, TokenType::LeftParen) { (None, p) } else {
        let p1 = p + 1;
        let (init, q1, ok1) = if check(t, p1, TokenType::Semicolon) {
            (None, p1 + 1, true)
        } else if check(t, p1, TokenType::Var) {
            let (d, q0) = var_core(t, p1 + 1);
            let q = fix(q0, p1 + 1, t.len() - 1);
            if d is None || !check(t, q, TokenType::Semicolon) { (None, q, false) } else { (d, q + 1, true) }
        } else {
            let (e, q0) = expression(t, p1);
            let q = fix(q0, p1, t.len() - 1);
            if e is None || !check(t, q, TokenType::Semicolon) {
                (None, q, false)
            } else {
                (Some(StmtV::Expression(e.unwrap())), q + 1, true)
            }
        };
        let q1 = fix(q1, p1, t.len() - 1);
        if !ok1 { (None, q1) } else {
            let (cond, q2, ok2) = if !check(t, q1, TokenType::Semicolon) {
                let (c, q) = expression(t, q1);
                (c, q, c is Some)
            } else {
                (None, q1, true)
            };
            let q2 = fix(q2, q1, t.len() - 1);
            if !ok2 || !check(t, q2, TokenType::Semicolon) { (None, q2) } else {
                let q3 = q2 + 1;
                let (inc, q4, ok3) = if !check(t, q3, TokenType::RightParen) {
                    let (i, q) = expression(t, q3);
                    (i, q, i is Some)
                } else {
                    (None, q3, true)
                };
                let q4 = fix(q4, q3, t.len() - 1);
                if !ok3 || !check(t, q4, TokenType::RightParen) { (None, q4) } else {
                    let (body, q5) = statement(t, q4 + 1);
                    if body is None { (None, q5) } else {
                        (Some(desugar_for(init, cond, inc, body.unwrap())), q5)
                    }
                }
            }
        }
    }
}

pub open spec fn while_statement(t: Seq<TokenView>, p: int) -> PStmt
    decreases t.len() - p, 47int,
{
    if !(0 <= p < t.len()) || !check(t, p, TokenType::LeftParen) { (None, p) } else {
        let p1 = p + 1;
        let (c, q0) = expression(t, p1);
        let q = fix(q0, p1, t.len() - 1);
        if c is None || !check(t, q, TokenType::RightParen) { (None, q) } else {
            let q1 = q + 1;
            let (b, q2) = statement(t, q1);
            if b is None { (None, q2) } else { (Some(StmtV::While(c.unwrap(), Box::new(b.unwrap()))), q2) }
        }
    }
}

pub open spec fn if_statement(t: Seq<TokenView>, p: int) -> PStmt
    decreases t.len() - p, 46int,
{
    if !(0 <= p < t.len()) || !check(t, p, TokenType::LeftParen) { (None, p) } else {
        let p1 = p + 1;
        let (c, q0) = expression(t, p1);
        let q = fix(q0, p1, t.len() - 1);
        if c is None || !check(t, q, TokenType::RightParen) { (None, q) } else {
            if_branches(t, q + 1, c.unwrap())
        }
    }
}

/// The branches of an `if` statement, after its condition.
pub open spec fn if_branches(t: Seq<TokenView>, p: int, c: ExprV) -> PStmt
    decreases t.len() - p, 55int,
{
    if !(0 <= p < t.len()) { (None, p) } else {
        let (a, q2) = statement(t, p);
        let q2 = fix(q2, p, t.len() - 1);
        if a is None { (None, q2) }
        else if check(t, q2, TokenType::Else) {
            let (b, q3) = statement(t, q2 + 1);
            if b is None { (None, q3) } else {
                (Some(StmtV::If(c, Box::new(a.unwrap()), Some(Box::new(b.unwrap())))), q3)
            }
        } else {
            (Some(StmtV::If(c, Box::new(a.unwrap()), None)), q2)
        }
    }
}

/// `var` and what follows it up to, not including, the semicolons after it.
pub open spec fn var_core(t: Seq<TokenView>, p: int) -> PStmt
    decreases t.len() - p, 42int,
{
    if !(0 <= p < t.len()) || !check(t, p, TokenType::Identifier) { (None, p) } else {
        let name = t[p];
        if check(t, p + 1, TokenType::Equal) {
            let (e, q) = expression(t, p + 2);
            if e is None { (None, q) } else { (Some(StmtV::Let(name, Some(e.unwrap()))), q) }
        } else {
            (Some(StmtV::Let(name, None)), p + 1)
        }
    }
}

pub open spec fn var_declaration(t: Seq<TokenView>, p: int) -> PStmt
    decreases t.len() - p, 45int,
{
    if !(0 <= p < t.len()) { (None, p) } else {
        let (d, q) = var_core(t, p);
        if d is None { (None, q) } else { (d, skip_semicolons(t, q)) }
    }
}

pub open spec fn print_statement(t: Seq<TokenView>, p: int) -> PStmt
    decreases t.len() - p, 44int,
{
    if !(0 <= p < t.len()) { (None, p) } else {
        let (e, q) = expression(t, p);
        if e is None { (None, q) } else { (Some(StmtV::Print(e.unwrap())), skip_semicolons(t, q)) }
    }
}

pub open spec fn expression_statement(t: Seq<TokenView>, p: int) -> PStmt
    decreases t.len() - p, 43int,
{
    if !(0 <= p < t.len()) { (None, p) } else {
        let (e, q) = expression(t, p);
        if e is None { (None, q) } else { (Some(StmtV::Expression(e.unwrap())), skip_semicolons(t, q)) }
    }
}

} // verus!
