use vstd::prelude::*;
use crate::token::{Token, TokenType, TokenView};
use crate::ast::{Expr, Stmt, ExprV, StmtV, stmts_view, items_view, lemma_items_push};
use crate::grammar;
use crate::scanner::tokens_view;

verus! {

pub open spec fn opt_expr_view(e: Option<Expr>) -> Option<ExprV> {
    match e {
        Some(x) => Some(x@),
        None => None,
    }
}

pub open spec fn opt_stmt_view(s: Option<Stmt>) -> Option<StmtV> {
    match s {
        Some(x) => Some(x@),
        None => None,
    }
}


/// A block of two statements.
fn pair_block(a: Stmt, b: Stmt) -> (r: Stmt)
    ensures
        r@ == StmtV::Block(seq![a@, b@]),
{
    let ghost av = a@;
    let ghost bv = b@;
    let b1 = Box::new(a);
    let b2 = Box::new(b);
    proof {
        assert(items_view(seq![]) =~= seq![]);
        lemma_items_push(seq![], b1);
        assert(seq![].push(b1) =~= seq![b1]);
        lemma_items_push(seq![b1], b2);
        assert(seq![b1].push(b2) =~= seq![b1, b2]);
    }
    let mut v: Vec<Box<Stmt>> = Vec::new();
    v.push(b1);
    v.push(b2);
    assert(v@ =~= seq![b1, b2]);
    assert(items_view(v@) =~= seq![av, bv]);
    Stmt::Block(v)
}

/// A `for` loop as the `while` loop it stands for: the body followed by the increment,
/// repeated while the condition (`true` when absent) holds, after the initializer.
fn desugar_for(init: Option<Stmt>, cond: Option<Expr>, inc: Option<Expr>, body: Stmt) -> (r: Stmt)
    ensures
        r@ == grammar::desugar_for(opt_stmt_view(init), opt_expr_view(cond), opt_expr_view(inc), body@),
{
    let inner = match inc {
        Some(i) => pair_block(body, Stmt::Expression(Box::new(i))),
        None => body,
    };
    let c = match cond {
        Some(c) => c,
        None => Expr::Literal(String::from_str("true")),
    };
    let w = Stmt::While(c, Box::new(inner));
    match init {
        Some(s) => pair_block(s, w),
        None => w,
    }
}

/// A token sequence a parser can work on: it ends with the end-of-input token.
pub open spec fn well_terminated(t: Seq<TokenView>) -> bool {
    &&& t.len() >= 1
    &&& t.last().kind == TokenType::EOF
}

/// Whether a token sequence ends with the end-of-input token, as `Parser::new` asks.
pub fn well_terminated_tokens(tokens: &Vec<Token>) -> (r: bool)
    ensures
        r == well_terminated(tokens_view(tokens@)),
{
    if tokens.len() == 0 {
        return false;
    }
    let n = tokens.len();
    assert(tokens_view(tokens@).last() == tokens@[n - 1]@);
    tokens[n - 1].token_type == TokenType::EOF
}

/// A recursive-descent parser over a token sequence.
pub struct Parser {
    tokens: Vec<Token>,
    current: usize,
    error_at: Option<usize>,
}

impl Parser {
    pub closed spec fn toks(&self) -> Seq<TokenView> {
        tokens_view(self.tokens@)
    }

    pub closed spec fn pos(&self) -> int {
        self.current as int
    }

    pub closed spec fn wf(&self) -> bool {
        &&& well_terminated(tokens_view(self.tokens@))
        &&& self.current < self.tokens@.len()
        &&& match self.error_at {
            Some(e) => e < self.tokens@.len(),
            None => true,
        }
    }

    /// Where the first failed declaration of the last `parse` stopped, before recovery.
    pub closed spec fn failure_pos(&self) -> Option<int> {
        match self.error_at {
            Some(e) => Some(e as int),
            None => None,
        }
    }

    /// The line of the token at which the first failing declaration stopped, or of the
    /// current token when nothing failed.
    pub fn error_line(&self) -> (r: usize)
        requires
            self.wf(),
        ensures
            r == self.toks()[match self.failure_pos() {
                Some(e) => e,
                None => self.pos(),
            }].line,
    {
        match self.error_at {
            Some(e) => self.tokens[e].line,
            None => self.tokens[self.current].line,
        }
    }

    pub fn new(tokens: Vec<Token>) -> (r: Parser)
        requires
            well_terminated(tokens_view(tokens@)),
        ensures
            r.wf(),
            r.toks() == tokens_view(tokens@),
            r.pos() == 0,
    {
        Parser { tokens, current: 0, error_at: None }
    }

    /// Parses the whole token sequence: its statements in order, or `None` when any
    /// declaration has a syntax error.
    #[verifier::rlimit(100)]
    #[verifier::spinoff_prover]
    pub fn parse(&mut self) -> (r: Option<Vec<Stmt>>)
        requires
            old(self).wf(),
        ensures
            final(self).wf(),
            final(self).toks() == old(self).toks(),
            match grammar::program_from(old(self).toks(), old(self).pos(), seq![]) {
                Some(v) => r.is_some() && stmts_view(r.unwrap()@) == v,
                None => r.is_none(),
            },
            old(self).pos() == 0 ==> grammar::program_from(old(self).toks(), 0, seq![])
                == grammar::program(old(self).toks()),
            r is None ==> final(self).failure_pos() is Some,
    {
        self.error_at = None;
        let ghost t = self.toks();
        let ghost start = self.pos();
        let mut statements: Vec<Stmt> = Vec::new();
        proof {
            assert(stmts_view(statements@) =~= seq![]);
        }
        while !self.is_at_end()
            invariant
                self.wf(),
                self.toks() == t,
                t == old(self).toks(),
                start == old(self).pos(),
                self.tokens == old(self).tokens,
                grammar::program_from(t, self.pos(), stmts_view(statements@))
                    == grammar::program_from(t, start, seq![]),
            decreases t.len() - self.pos(),
        {
            let ghost before = stmts_view(statements@);
            let ghost p = self.pos();
            let stmt = self.declaration();
            match stmt {
                None => {
                    return None;
                },
                Some(s) => {
                    let ghost sv = s@;
                    statements.push(s);
                    assert(stmts_view(statements@) =~= before.push(sv));
                    assert(grammar::program_from(t, p, before)
                        == grammar::program_from(t, self.pos(), before.push(sv)));
                },
            }
        }
        Some(statements)
    }

    fn peek_kind(&self) -> (k: TokenType)
        requires
            self.wf(),
        ensures
            k == grammar::kind_at(self.toks(), self.pos()),
    {
        self.tokens[self.current].token_type
    }

    fn is_at_end(&self) -> (r: bool)
        requires
            self.wf(),
        ensures
            r == grammar::at_end(self.toks(), self.pos()),
    {
        self.peek_kind() == TokenType::EOF
    }

    fn check(&self, k: TokenType) -> (r: bool)
        requires
            self.wf(),
        ensures
            r == grammar::check(self.toks(), self.pos(), k),
    {
        !self.is_at_end() && self.peek_kind() == k
    }

    /// Moves past the current token, unless it is the end of input.
    fn advance(&mut self)
        requires
            old(self).wf(),
        ensures
            final(self).wf(),
            final(self).tokens == old(self).tokens,
            old(self).error_at is Some ==> final(self).error_at == old(self).error_at,
            final(self).pos() == if grammar::at_end(old(self).toks(), old(self).pos()) {
                old(self).pos()
            } else {
                old(self).pos() + 1
            },
    {
        if !self.is_at_end() {
            assert(self.current + 1 < self.tokens@.len()) by {
                if self.current + 1 >= self.tokens@.len() {
                    assert(self.toks()[self.pos()] == self.tokens@[self.pos()]@);
                    assert(self.toks().last() == self.tokens@[self.pos()]@);
                }
            }
            let n: usize = self.tokens.len();
            assert(self.current + 1 < n);
            self.current = self.current + 1;
        }
    }

    /// Consumes the current token if it has kind `k`.
    fn match_one(&mut self, k: TokenType) -> (r: bool)
        requires
            old(self).wf(),
        ensures
            final(self).wf(),
            final(self).tokens == old(self).tokens,
            old(self).error_at is Some ==> final(self).error_at == old(self).error_at,
            r == grammar::check(old(self).toks(), old(self).pos(), k),
            final(self).pos() == if r { old(self).pos() + 1 } else { old(self).pos() },
    {
        if self.check(k) {
            self.advance();
            true
        } else {
            false
        }
    }

    /// A copy of the token at position `i`.
    fn token_at(&self, i: usize) -> (r: Token)
        requires
            self.wf(),
            i < self.tokens@.len(),
        ensures
            r@ == self.toks()[i as int],
    {
        self.tokens[i].duplicate()
    }

    #[verifier::rlimit(100)]
    #[verifier::spinoff_prover]
    fn expression(&mut self) -> (r: Option<Expr>)
        requires
            old(self).wf(),
        ensures
            final(self).wf(),
            final(self).tokens == old(self).tokens,
            old(self).error_at is Some ==> final(self).error_at == old(self).error_at,
            opt_expr_view(r) == grammar::expression(old(self).toks(), old(self).pos()).0,
            final(self).pos() == grammar::expression(old(self).toks(), old(self).pos()).1,
            old(self).pos() <= final(self).pos(),
            r.is_some() ==> old(self).pos() < final(self).pos(),
        decreases old(self).tokens@.len() - old(self).current, 40int,
    {
        self.assignment()
    }

    #[verifier::rlimit(100)]
    #[verifier::spinoff_prover]
    fn assignment(&mut self) -> (r: Option<Expr>)
        requires
            old(self).wf(),
        ensures
            final(self).wf(),
            final(self).tokens == old(self).tokens,
            old(self).error_at is Some ==> final(self).error_at == old(self).error_at,
            opt_expr_view(r) == grammar::assignment(old(self).toks(), old(self).pos()).0,
            final(self).pos() == grammar::assignment(old(self).toks(), old(self).pos()).1,
            old(self).pos() <= final(self).pos(),
            r.is_some() ==> old(self).pos() < final(self).pos(),
        decreases old(self).tokens@.len() - old(self).current, 39int,
    {
        let e = self.or_expr();
        match e {
            None => None,
            Some(e) => {
                if self.match_one(TokenType::Equal) {
                    let v = self.assignment();
                    match v {
                        None => None,
                        Some(v) => match e {
                            Expr::Variable(name) => Some(Expr::Assign(name, Box::new(v))),
                            _ => None,
                        },
                    }
                } else {
                    Some(e)
                }
            },
        }
    }

    #[verifier::rlimit(100)]
    #[verifier::spinoff_prover]
    fn or_expr(&mut self) -> (r: Option<Expr>)
        requires
            old(self).wf(),
        ensures
            final(self).wf(),
            final(self).tokens == old(self).tokens,
            old(self).error_at is Some ==> final(self).error_at == old(self).error_at,
            opt_expr_view(r) == grammar::or_expr(old(self).toks(), old(self).pos()).0,
            final(self).pos() == grammar::or_expr(old(self).toks(), old(self).pos()).1,
            old(self).pos() <= final(self).pos(),
            r.is_some() ==> old(self).pos() < final(self).pos(),
        decreases old(self).tokens@.len() - old(self).current, 38int,
    {
        let e = self.and_expr();
        match e {
            None => None,
            Some(e) => self.or_rest(e),
        }
    }

    #[verifier::rlimit(100)]
    #[verifier::spinoff_prover]
    fn and_expr(&mut self) -> (r: Option<Expr>)
        requires
            old(self).wf(),
        ensures
            final(self).wf(),
            final(self).tokens == old(self).tokens,
            old(self).error_at is Some ==> final(self).error_at == old(self).error_at,
            opt_expr_view(r) == grammar::and_expr(old(self).toks(), old(self).pos()).0,
            final(self).pos() == grammar::and_expr(old(self).toks(), old(self).pos()).1,
            old(self).pos() <= final(self).pos(),
            r.is_some() ==> old(self).pos() < final(self).pos(),
        decreases old(self).tokens@.len() - old(self).current, 36int,
    {
        let e = self.ternary();
        match e {
            None => None,
            Some(e) => self.and_rest(e),
        }
    }

    #[verifier::rlimit(100)]
    #[verifier::spinoff_prover]
    fn equality(&mut self) -> (r: Option<Expr>)
        requires
            old(self).wf(),
        ensures
            final(self).wf(),
            final(self).tokens == old(self).tokens,
            old(self).error_at is Some ==> final(self).error_at == old(self).error_at,
            opt_expr_view(r) == grammar::equality(old(self).toks(), old(self).pos()).0,
            final(self).pos() == grammar::equality(old(self).toks(), old(self).pos()).1,
            old(self).pos() <= final(self).pos(),
            r.is_some() ==> old(self).pos() < final(self).pos(),
        decreases old(self).tokens@.len() - old(self).current, 33int,
    {
        let e = self.comparison();
        match e {
            None => None,
            Some(e) => self.equality_rest(e),
        }
    }

    #[verifier::rlimit(100)]
    #[verifier::spinoff_prover]
    fn comparison(&mut self) -> (r: Option<Expr>)
        requires
            old(self).wf(),
        ensures
            final(self).wf(),
            final(self).tokens == old(self).tokens,
            old(self).error_at is Some ==> final(self).error_at == old(self).error_at,
            opt_expr_view(r) == grammar::comparison(old(self).toks(), old(self).pos()).0,
            final(self).pos() == grammar::comparison(old(self).toks(), old(self).pos()).1,
            old(self).pos() <= final(self).pos(),
            r.is_some() ==> old(self).pos() < final(self).pos(),
        decreases old(self).tokens@.len() - old(self).current, 31int,
    {
        let e = self.term();
        match e {
            None => None,
            Some(e) => self.comparison_rest(e),
        }
    }

    #[verifier::rlimit(100)]
    #[verifier::spinoff_prover]
    fn term(&mut self) -> (r: Option<Expr>)
        requires
            old(self).wf(),
        ensures
            final(self).wf(),
            final(self).tokens == old(self).tokens,
            old(self).error_at is Some ==> final(self).error_at == old(self).error_at,
            opt_expr_view(r) == grammar::term(old(self).toks(), old(self).pos()).0,
            final(self).pos() == grammar::term(old(self).toks(), old(self).pos()).1,
            old(self).pos() <= final(self).pos(),
            r.is_some() ==> old(self).pos() < final(self).pos(),
        decreases old(self).tokens@.len() - old(self).current, 29int,
    {
        let e = self.factor();
        match e {
            None => None,
            Some(e) => self.term_rest(e),
        }
    }

    #[verifier::rlimit(100)]
    #[verifier::spinoff_prover]
    fn factor(&mut self) -> (r: Option<Expr>)
        requires
            old(self).wf(),
        ensures
            final(self).wf(),
            final(self).tokens == old(self).tokens,
            old(self).error_at is Some ==> final(self).error_at == old(self).error_at,
            opt_expr_view(r) == grammar::factor(old(self).toks(), old(self).pos()).0,
            final(self).pos() == grammar::factor(old(self).toks(), old(self).pos()).1,
            old(self).pos() <= final(self).pos(),
            r.is_some() ==> old(self).pos() < final(self).pos(),
        decreases old(self).tokens@.len() - old(self).current, 27int,
    {
        let e = self.unary();
        match e {
            None => None,
            Some(e) => self.factor_rest(e),
        }
    }

    #[verifier::rlimit(100)]
    #[verifier::spinoff_prover]
    fn equality_rest(&mut self, left: Expr) -> (r: Option<Expr>)
        requires
            old(self).wf(),
        ensures
            final(self).wf(),
            final(self).tokens == old(self).tokens,
            old(self).error_at is Some ==> final(self).error_at == old(self).error_at,
            opt_expr_view(r) == grammar::equality_rest(old(self).toks(), old(self).pos(), left@).0,
            final(self).pos() == grammar::equality_rest(old(self).toks(), old(self).pos(), left@).1,
            old(self).pos() <= final(self).pos(),
        decreases old(self).tokens@.len() - old(self).current, 32int,
    {
        let ghost t = self.toks();
        let ghost start = self.pos();
        let mut acc = left;
        loop
            invariant
                self.wf(),
                start == old(self).pos(),
                t == old(self).toks(),
                self.tokens == old(self).tokens,
                old(self).error_at is Some ==> self.error_at == old(self).error_at,
                t == self.toks(),
                start <= self.pos(),
                grammar::equality_rest(t, self.pos(), acc@) == grammar::equality_rest(t, start, left@),
            decreases self.tokens@.len() - self.current,
        {
            let k = self.peek_kind();
            if !self.is_at_end() && is_equality_op_exec(k) {
                assert(self.pos() < t.len() - 1) by {
                    if self.pos() >= t.len() - 1 {
                        assert(t[self.pos()] == self.tokens@[self.pos()]@);
                        assert(t.last() == self.tokens@[self.pos()]@);
                    }
                }
                let op = self.token_at(self.current);
                self.advance();
                let right = self.comparison();
                match right {
                    None => {
                        return None;
                    },
                    Some(rgt) => {
                        acc = Expr::Binary(Box::new(acc), op, Box::new(rgt));
                    },
                }
            } else {
                return Some(acc);
            }
        }
    }

    #[verifier::rlimit(100)]
    #[verifier::spinoff_prover]
    fn comparison_rest(&mut self, left: Expr) -> (r: Option<Expr>)
        requires
            old(self).wf(),
        ensures
            final(self).wf(),
            final(self).tokens == old(self).tokens,
            old(self).error_at is Some ==> final(self).error_at == old(self).error_at,
            opt_expr_view(r) == grammar::comparison_rest(old(self).toks(), old(self).pos(), left@).0,
            final(self).pos() == grammar::comparison_rest(old(self).toks(), old(self).pos(), left@).1,
            old(self).pos() <= final(self).pos(),
        decreases old(self).tokens@.len() - old(self).current, 30int,
    {
        let ghost t = self.toks();
        let ghost start = self.pos();
        let mut acc = left;
        loop
            invariant
                self.wf(),
                start == old(self).pos(),
                t == old(self).toks(),
                self.tokens == old(self).tokens,
                old(self).error_at is Some ==> self.error_at == old(self).error_at,
                t == self.toks(),
                start <= self.pos(),
                grammar::comparison_rest(t, self.pos(), acc@) == grammar::comparison_rest(t, start, left@),
            decreases self.tokens@.len() - self.current,
        {
            let k = self.peek_kind();
            if !self.is_at_end() && is_comparison_op_exec(k) {
                assert(self.pos() < t.len() - 1) by {
                    if self.pos() >= t.len() - 1 {
                        assert(t[self.pos()] == self.tokens@[self.pos()]@);
                        assert(t.last() == self.tokens@[self.pos()]@);
                    }
                }
                let op = self.token_at(self.current);
                self.advance();
                let right = self.term();
                match right {
                    None => {
                        return None;
                    },
                    Some(rgt) => {
                        acc = Expr::Binary(Box::new(acc), op, Box::new(rgt));
                    },
                }
            } else {
                return Some(acc);
            }
        }
    }

    #[verifier::rlimit(100)]
    #[verifier::spinoff_prover]
    fn term_rest(&mut self, left: Expr) -> (r: Option<Expr>)
        requires
            old(self).wf(),
        ensures
            final(self).wf(),
            final(self).tokens == old(self).tokens,
            old(self).error_at is Some ==> final(self).error_at == old(self).error_at,
            opt_expr_view(r) == grammar::term_rest(old(self).toks(), old(self).pos(), left@).0,
            final(self).pos() == grammar::term_rest(old(self).toks(), old(self).pos(), left@).1,
            old(self).pos() <= final(self).pos(),
        decreases old(self).tokens@.len() - old(self).current, 28int,
    {
        let ghost t = self.toks();
        let ghost start = self.pos();
        let mut acc = left;
        loop
            invariant
                self.wf(),
                start == old(self).pos(),
                t == old(self).toks(),
                self.tokens == old(self).tokens,
                old(self).error_at is Some ==> self.error_at == old(self).error_at,
                t == self.toks(),
                start <= self.pos(),
                grammar::term_rest(t, self.pos(), acc@) == grammar::term_rest(t, start, left@),
            decreases self.tokens@.len() - self.current,
        {
            let k = self.peek_kind();
            if !self.is_at_end() && is_term_op_exec(k) {
                assert(self.pos() < t.len() - 1) by {
                    if self.pos() >= t.len() - 1 {
                        assert(t[self.pos()] == self.tokens@[self.pos()]@);
                        assert(t.last() == self.tokens@[self.pos()]@);
                    }
                }
                let op = self.token_at(self.current);
                self.advance();
                let right = self.factor();
                match right {
                    None => {
                        return None;
                    },
                    Some(rgt) => {
                        acc = Expr::Binary(Box::new(acc), op, Box::new(rgt));
                    },
                }
            } else {
                return Some(acc);
            }
        }
    }

    #[verifier::rlimit(100)]
    #[verifier::spinoff_prover]
    fn factor_rest(&mut self, left: Expr) -> (r: Option<Expr>)
        requires
            old(self).wf(),
        ensures
            final(self).wf(),
            final(self).tokens == old(self).tokens,
            old(self).error_at is Some ==> final(self).error_at == old(self).error_at,
            opt_expr_view(r) == grammar::factor_rest(old(self).toks(), old(self).pos(), left@).0,
            final(self).pos() == grammar::factor_rest(old(self).toks(), old(self).pos(), left@).1,
            old(self).pos() <= final(self).pos(),
        decreases old(self).tokens@.len() - old(self).current, 26int,
    {
        let ghost t = self.toks();
        let ghost start = self.pos();
        let mut acc = left;
        loop
            invariant
                self.wf(),
                start == old(self).pos(),
                t == old(self).toks(),
                self.tokens == old(self).tokens,
                old(self).error_at is Some ==> self.error_at == old(self).error_at,
                t == self.toks(),
                start <= self.pos(),
                grammar::factor_rest(t, self.pos(), acc@) == grammar::factor_rest(t, start, left@),
            decreases self.tokens@.len() - self.current,
        {
            let k = self.peek_kind();
            if !self.is_at_end() && is_factor_op_exec(k) {
                assert(self.pos() < t.len() - 1) by {
                    if self.pos() >= t.len() - 1 {
                        assert(t[self.pos()] == self.tokens@[self.pos()]@);
                        assert(t.last() == self.tokens@[self.pos()]@);
                    }
                }
                let op = self.token_at(self.current);
                self.advance();
                let right = self.unary();
                match right {
                    None => {
                        return None;
                    },
                    Some(rgt) => {
                        acc = Expr::Binary(Box::new(acc), op, Box::new(rgt));
                    },
                }
            } else {
                return Some(acc);
            }
        }
    }

    #[verifier::rlimit(100)]
    #[verifier::spinoff_prover]
    fn or_rest(&mut self, left: Expr) -> (r: Option<Expr>)
        requires
            old(self).wf(),
        ensures
            final(self).wf(),
            final(self).tokens == old(self).tokens,
            old(self).error_at is Some ==> final(self).error_at == old(self).error_at,
            opt_expr_view(r) == grammar::or_rest(old(self).toks(), old(self).pos(), left@).0,
            final(self).pos() == grammar::or_rest(old(self).toks(), old(self).pos(), left@).1,
            old(self).pos() <= final(self).pos(),
        decreases old(self).tokens@.len() - old(self).current, 37int,
    {
        let ghost t = self.toks();
        let ghost start = self.pos();
        let mut acc = left;
        loop
            invariant
                self.wf(),
                start == old(self).pos(),
                t == old(self).toks(),
                self.tokens == old(self).tokens,
                old(self).error_at is Some ==> self.error_at == old(self).error_at,
                t == self.toks(),
                start <= self.pos(),
                grammar::or_rest(t, self.pos(), acc@) == grammar::or_rest(t, start, left@),
            decreases self.tokens@.len() - self.current,
        {
            let k = self.peek_kind();
            if !self.is_at_end() && k == TokenType::Or {
                assert(self.pos() < t.len() - 1) by {
                    if self.pos() >= t.len() - 1 {
                        assert(t[self.pos()] == self.tokens@[self.pos()]@);
                        assert(t.last() == self.tokens@[self.pos()]@);
                    }
                }
                let op = self.token_at(self.current);
                self.advance();
                let right = self.and_expr();
                match right {
                    None => {
                        return None;
                    },
                    Some(rgt) => {
                        acc = Expr::Logical(Box::new(acc), op, Box::new(rgt));
                    },
                }
            } else {
                return Some(acc);
            }
        }
    }

    #[verifier::rlimit(100)]
    #[verifier::spinoff_prover]
    fn and_rest(&mut self, left: Expr) -> (r: Option<Expr>)
        requires
            old(self).wf(),
        ensures
            final(self).wf(),
            final(self).tokens == old(self).tokens,
            old(self).error_at is Some ==> final(self).error_at == old(self).error_at,
            opt_expr_view(r) == grammar::and_rest(old(self).toks(), old(self).pos(), left@).0,
            final(self).pos() == grammar::and_rest(old(self).toks(), old(self).pos(), left@).1,
            old(self).pos() <= final(self).pos(),
        decreases old(self).tokens@.len() - old(self).current, 35int,
    {
        proof {
            grammar::lemma_and_rest(self.toks(), self.pos(), left@);
        }
        if self.check(TokenType::And) {
            self.and_step(left)
        } else {
            Some(left)
        }
    }

    /// One `and` and its right operand, then the rest of the chain.
    #[verifier::rlimit(100)]
    #[verifier::spinoff_prover]
    fn and_step(&mut self, left: Expr) -> (r: Option<Expr>)
        requires
            old(self).wf(),
            grammar::check(old(self).toks(), old(self).pos(), TokenType::And),
        ensures
            final(self).wf(),
            final(self).tokens == old(self).tokens,
            old(self).error_at is Some ==> final(self).error_at == old(self).error_at,
            opt_expr_view(r) == grammar::and_rest(old(self).toks(), old(self).pos(), left@).0,
            final(self).pos() == grammar::and_rest(old(self).toks(), old(self).pos(), left@).1,
            old(self).pos() <= final(self).pos(),
        decreases old(self).tokens@.len() - old(self).current, 34int,
    {
        assert(self.pos() < self.toks().len() - 1) by {
            if self.pos() >= self.toks().len() - 1 {
                assert(self.toks()[self.pos()] == self.tokens@[self.pos()]@);
                assert(self.toks().last() == self.tokens@[self.pos()]@);
            }
        }
        proof {
            grammar::lemma_and_rest(self.toks(), self.pos(), left@);
        }
        let op = self.token_at(self.current);
        self.advance();
        let right = self.equality();
        match right {
            None => None,
            Some(rgt) => self.and_rest(Expr::Logical(Box::new(left), op, Box::new(rgt))),
        }
    }

    #[verifier::rlimit(100)]
    #[verifier::spinoff_prover]
    fn ternary(&mut self) -> (r: Option<Expr>)
        requires
            old(self).wf(),
        ensures
            final(self).wf(),
            final(self).tokens == old(self).tokens,
            old(self).error_at is Some ==> final(self).error_at == old(self).error_at,
            opt_expr_view(r) == grammar::ternary(old(self).toks(), old(self).pos()).0,
            final(self).pos() == grammar::ternary(old(self).toks(), old(self).pos()).1,
            old(self).pos() <= final(self).pos(),
            r.is_some() ==> old(self).pos() < final(self).pos(),
        decreases old(self).tokens@.len() - old(self).current, 34int,
    {
        let c = self.equality();
        match c {
            None => None,
            Some(c) => {
                if !self.match_one(TokenType::Qmark) {
                    return Some(c);
                }
                self.ternary_branches(c)
            },
        }
    }

    #[verifier::rlimit(100)]
    #[verifier::spinoff_prover]
    fn ternary_branches(&mut self, cond: Expr) -> (r: Option<Expr>)
        requires
            old(self).wf(),
        ensures
            final(self).wf(),
            final(self).tokens == old(self).tokens,
            old(self).error_at is Some ==> final(self).error_at == old(self).error_at,
            opt_expr_view(r) == grammar::ternary_branches(old(self).toks(), old(self).pos(), cond@).0,
            final(self).pos() == grammar::ternary_branches(old(self).toks(), old(self).pos(), cond@).1,
            old(self).pos() <= final(self).pos(),
        decreases old(self).tokens@.len() - old(self).current, 34int,
    {
        let a = self.primary();
        match a {
            None => None,
            Some(a) => {
                if !self.match_one(TokenType::Colon) {
                    return None;
                }
                let b = self.ternary();
                match b {
                    None => None,
                    Some(b) => Some(Expr::Ternary(Box::new(cond), Box::new(a), Box::new(b))),
                }
            },
        }
    }

    #[verifier::rlimit(100)]
    #[verifier::spinoff_prover]
    fn unary(&mut self) -> (r: Option<Expr>)
        requires
            old(self).wf(),
        ensures
            final(self).wf(),
            final(self).tokens == old(self).tokens,
            old(self).error_at is Some ==> final(self).error_at == old(self).error_at,
            opt_expr_view(r) == grammar::unary(old(self).toks(), old(self).pos()).0,
            final(self).pos() == grammar::unary(old(self).toks(), old(self).pos()).1,
            old(self).pos() <= final(self).pos(),
            r.is_some() ==> old(self).pos() < final(self).pos(),
        decreases old(self).tokens@.len() - old(self).current, 25int,
    {
        if self.check(TokenType::Bang) || self.check(TokenType::Minus) {
            let op = self.token_at(self.current);
            self.advance();
            let right = self.unary();
            match right {
                None => None,
                Some(rgt) => Some(Expr::Unary(op, Box::new(rgt))),
            }
        } else {
            self.primary()
        }
    }

    #[verifier::rlimit(100)]
    #[verifier::spinoff_prover]
    fn primary(&mut self) -> (r: Option<Expr>)
        requires
            old(self).wf(),
        ensures
            final(self).wf(),
            final(self).tokens == old(self).tokens,
            old(self).error_at is Some ==> final(self).error_at == old(self).error_at,
            opt_expr_view(r) == grammar::primary(old(self).toks(), old(self).pos()).0,
            final(self).pos() == grammar::primary(old(self).toks(), old(self).pos()).1,
            old(self).pos() <= final(self).pos(),
            r.is_some() ==> old(self).pos() < final(self).pos(),
        decreases old(self).tokens@.len() - old(self).current, 24int,
    {
        if self.match_one(TokenType::False) {
            return Some(Expr::Literal(String::from_str("false")));
        }
        if self.match_one(TokenType::True) {
            return Some(Expr::Literal(String::from_str("true")));
        }
        if self.match_one(TokenType::Nil) {
            return Some(Expr::Literal(String::from_str("nil")));
        }
        if self.check(TokenType::Number) || self.check(TokenType::String) {
            let tok = self.token_at(self.current);
            self.advance();
            return Some(Expr::Literal(tok.lexeme));
        }
        if self.match_one(TokenType::LeftParen) {
            let e = self.expression();
            return match e {
                None => None,
                Some(e) => {
                    if !self.match_one(TokenType::RightParen) {
                        return None;
                    }
                    Some(Expr::Grouping(Box::new(e)))
                },
            };
        }
        if self.check(TokenType::Identifier) {
            let tok = self.token_at(self.current);
            self.advance();
            return Some(Expr::Variable(tok));
        }
        None
    }

    #[verifier::rlimit(100)]
    #[verifier::spinoff_prover]
    fn declaration(&mut self) -> (r: Option<Stmt>)
        requires
            old(self).wf(),
        ensures
            final(self).wf(),
            final(self).tokens == old(self).tokens,
            old(self).error_at is Some ==> final(self).error_at == old(self).error_at,
            opt_stmt_view(r) == grammar::declaration(old(self).toks(), old(self).pos()).0,
            final(self).pos() == grammar::declaration(old(self).toks(), old(self).pos()).1,
            old(self).pos() <= final(self).pos(),
            r.is_some() ==> old(self).pos() < final(self).pos(),
            r is None ==> final(self).error_at is Some,
        decreases old(self).tokens@.len() - old(self).current, 50int,
    {
        if self.match_one(TokenType::Var) {
            let d = self.var_declaration();
            if d.is_none() {
                self.record_error();
            }
            return d;
        }
        let s = self.statement();
        match s {
            None => {
                self.record_error();
                self.synchronize();
                None
            },
            Some(s) => Some(s),
        }
    }

    /// The statements of a block up to its closing brace, which is consumed.
    #[verifier::rlimit(100)]
    #[verifier::spinoff_prover]
    fn block(&mut self) -> (r: Option<Vec<Box<Stmt>>>)
        requires
            old(self).wf(),
        ensures
            final(self).wf(),
            final(self).tokens == old(self).tokens,
            old(self).error_at is Some ==> final(self).error_at == old(self).error_at,
            match grammar::block_from(old(self).toks(), old(self).pos(), seq![]).0 {
                Some(v) => r.is_some() && items_view(r.unwrap()@) == v,
                None => r.is_none(),
            },
            final(self).pos() == grammar::block_from(old(self).toks(), old(self).pos(), seq![]).1,
            old(self).pos() <= final(self).pos(),
        decreases old(self).tokens@.len() - old(self).current, 51int,
    {
        let ghost t = self.toks();
        let ghost start = self.pos();
        let mut statements: Vec<Box<Stmt>> = Vec::new();
        proof {
            assert(items_view(statements@) =~= seq![]);
        }
        while !self.check(TokenType::RightBrace) && !self.is_at_end()
            invariant
                self.wf(),
                self.tokens == old(self).tokens,
                old(self).error_at is Some ==> self.error_at == old(self).error_at,
                t == self.toks(),
                t == old(self).toks(),
                start == old(self).pos(),
                start <= self.pos(),
                grammar::block_from(t, self.pos(), items_view(statements@))
                    == grammar::block_from(t, start, seq![]),
            decreases self.tokens@.len() - self.current,
        {
                let ghost before = items_view(statements@);
            let d = self.declaration();
            match d {
                None => {
                    return None;
                },
                Some(d) => {
                    let bd = Box::new(d);
                    proof {
                        lemma_items_push(statements@, bd);
                    }
                    statements.push(bd);
                },
            }
        }
        if self.match_one(TokenType::RightBrace) {
            Some(statements)
        } else {
            None
        }
    }

    #[verifier::rlimit(100)]
    #[verifier::spinoff_prover]
    fn var_core(&mut self) -> (r: Option<Stmt>)
        requires
            old(self).wf(),
        ensures
            final(self).wf(),
            final(self).tokens == old(self).tokens,
            old(self).error_at is Some ==> final(self).error_at == old(self).error_at,
            opt_stmt_view(r) == grammar::var_core(old(self).toks(), old(self).pos()).0,
            final(self).pos() == grammar::var_core(old(self).toks(), old(self).pos()).1,
            old(self).pos() <= final(self).pos(),
            r.is_some() ==> old(self).pos() < final(self).pos(),
        decreases old(self).tokens@.len() - old(self).current, 42int,
    {
        if !self.check(TokenType::Identifier) {
            return None;
        }
        let name = self.token_at(self.current);
        self.advance();
        if self.match_one(TokenType::Equal) {
            let e = self.expression();
            match e {
                None => None,
                Some(e) => Some(Stmt::Let(name, Some(Box::new(e)))),
            }
        } else {
            Some(Stmt::Let(name, None))
        }
    }

    #[verifier::rlimit(100)]
    #[verifier::spinoff_prover]
    fn var_declaration(&mut self) -> (r: Option<Stmt>)
        requires
            old(self).wf(),
        ensures
            final(self).wf(),
            final(self).tokens == old(self).tokens,
            old(self).error_at is Some ==> final(self).error_at == old(self).error_at,
            opt_stmt_view(r) == grammar::var_declaration(old(self).toks(), old(self).pos()).0,
            final(self).pos() == grammar::var_declaration(old(self).toks(), old(self).pos()).1,
            old(self).pos() <= final(self).pos(),
            r.is_some() ==> old(self).pos() < final(self).pos(),
        decreases old(self).tokens@.len() - old(self).current, 45int,
    {
        let d = self.var_core();
        if d.is_some() {
            self.skip_semicolons();
        }
        d
    }

    #[verifier::rlimit(100)]
    #[verifier::spinoff_prover]
    fn statement(&mut self) -> (r: Option<Stmt>)
        requires
            old(self).wf(),
        ensures
            final(self).wf(),
            final(self).tokens == old(self).tokens,
            old(self).error_at is Some ==> final(self).error_at == old(self).error_at,
            opt_stmt_view(r) == grammar::statement(old(self).toks(), old(self).pos()).0,
            final(self).pos() == grammar::statement(old(self).toks(), old(self).pos()).1,
            old(self).pos() <= final(self).pos(),
            r.is_some() ==> old(self).pos() < final(self).pos(),
        decreases old(self).tokens@.len() - old(self).current, 49int,
    {
        if self.match_one(TokenType::Print) {
            return self.print_statement();
        }
        if self.match_one(TokenType::LeftBrace) {
            let b = self.block();
            return match b {
                None => None,
                Some(b) => Some(Stmt::Block(b)),
            };
        }
        if self.match_one(TokenType::If) {
            return self.if_statement();
        }
        if self.match_one(TokenType::While) {
            return self.while_statement();
        }
        if self.match_one(TokenType::For) {
            return self.for_statement();
        }
        self.expression_statement()
    }

    #[verifier::rlimit(100)]
    #[verifier::spinoff_prover]
    fn for_statement(&mut self) -> (r: Option<Stmt>)
        requires
            old(self).wf(),
        ensures
            final(self).wf(),
            final(self).tokens == old(self).tokens,
            old(self).error_at is Some ==> final(self).error_at == old(self).error_at,
            opt_stmt_view(r) == grammar::for_statement(old(self).toks(), old(self).pos()).0,
            final(self).pos() == grammar::for_statement(old(self).toks(), old(self).pos()).1,
            old(self).pos() <= final(self).pos(),
            r.is_some() ==> old(self).pos() < final(self).pos(),
        decreases old(self).tokens@.len() - old(self).current, 48int,
    {
        if !self.match_one(TokenType::LeftParen) {
            return None;
        }
        let mut initializer: Option<Stmt> = None;
        if !self.match_one(TokenType::Semicolon) {
            if self.match_one(TokenType::Var) {
                match self.var_core() {
                    None => {
                        return None;
                    },
                    Some(d) => {
                        initializer = Some(d);
                    },
                }
            } else {
                match self.expression() {
                    None => {
                        return None;
                    },
                    Some(e) => {
                        initializer = Some(Stmt::Expression(Box::new(e)));
                    },
                }
            }
            if !self.match_one(TokenType::Semicolon) {
                return None;
            }
        }
        let mut condition: Option<Expr> = None;
        if !self.check(TokenType::Semicolon) {
            match self.expression() {
                None => {
                    return None;
                },
                Some(c) => {
                    condition = Some(c);
                },
            }
        }
        if !self.match_one(TokenType::Semicolon) {
            return None;
        }
        let mut increment: Option<Expr> = None;
        if !self.check(TokenType::RightParen) {
            match self.expression() {
                None => {
                    return None;
                },
                Some(i) => {
                    increment = Some(i);
                },
            }
        }
        if !self.match_one(TokenType::RightParen) {
            return None;
        }
        let body = self.statement();
        match body {
            None => None,
            Some(body) => Some(desugar_for(initializer, condition, increment, body)),
        }
    }

    #[verifier::rlimit(100)]
    #[verifier::spinoff_prover]
    fn while_statement(&mut self) -> (r: Option<Stmt>)
        requires
            old(self).wf(),
        ensures
            final(self).wf(),
            final(self).tokens == old(self).tokens,
            old(self).error_at is Some ==> final(self).error_at == old(self).error_at,
            opt_stmt_view(r) == grammar::while_statement(old(self).toks(), old(self).pos()).0,
            final(self).pos() == grammar::while_statement(old(self).toks(), old(self).pos()).1,
            old(self).pos() <= final(self).pos(),
            r.is_some() ==> old(self).pos() < final(self).pos(),
        decreases old(self).tokens@.len() - old(self).current, 47int,
    {
        if !self.match_one(TokenType::LeftParen) {
            return None;
        }
        let condition = self.expression();
        match condition {
            None => None,
            Some(c) => {
                if !self.match_one(TokenType::RightParen) {
                    return None;
                }
                let body = self.statement();
                match body {
                    None => None,
                    Some(b) => Some(Stmt::While(c, Box::new(b))),
                }
            },
        }
    }

    #[verifier::rlimit(100)]
    #[verifier::spinoff_prover]
    fn if_statement(&mut self) -> (r: Option<Stmt>)
        requires
            old(self).wf(),
        ensures
            final(self).wf(),
            final(self).tokens == old(self).tokens,
            old(self).error_at is Some ==> final(self).error_at == old(self).error_at,
            opt_stmt_view(r) == grammar::if_statement(old(self).toks(), old(self).pos()).0,
            final(self).pos() == grammar::if_statement(old(self).toks(), old(self).pos()).1,
            old(self).pos() <= final(self).pos(),
            r.is_some() ==> old(self).pos() < final(self).pos(),
        decreases old(self).tokens@.len() - old(self).current, 46int,
    {
        if !self.match_one(TokenType::LeftParen) {
            return None;
        }
        let condition = self.expression();
        match condition {
            None => None,
            Some(c) => {
                if !self.match_one(TokenType::RightParen) {
                    return None;
                }
                self.if_branches(c)
            },
        }
    }

    #[verifier::rlimit(100)]
    #[verifier::spinoff_prover]
    fn if_branches(&mut self, cond: Expr) -> (r: Option<Stmt>)
        requires
            old(self).wf(),
        ensures
            final(self).wf(),
            final(self).tokens == old(self).tokens,
            old(self).error_at is Some ==> final(self).error_at == old(self).error_at,
            opt_stmt_view(r) == grammar::if_branches(old(self).toks(), old(self).pos(), cond@).0,
            final(self).pos() == grammar::if_branches(old(self).toks(), old(self).pos(), cond@).1,
            old(self).pos() <= final(self).pos(),
            r.is_some() ==> old(self).pos() < final(self).pos(),
        decreases old(self).tokens@.len() - old(self).current, 55int,
    {
        let then_branch = self.statement();
        match then_branch {
            None => None,
            Some(a) => {
                if self.match_one(TokenType::Else) {
                    let else_branch = self.statement();
                    match else_branch {
                        None => None,
                        Some(b) => Some(Stmt::If(cond, Box::new(a), Box::new(Some(b)))),
                    }
                } else {
                    Some(Stmt::If(cond, Box::new(a), Box::new(None)))
                }
            },
        }
    }

    #[verifier::rlimit(100)]
    #[verifier::spinoff_prover]
    fn print_statement(&mut self) -> (r: Option<Stmt>)
        requires
            old(self).wf(),
        ensures
            final(self).wf(),
            final(self).tokens == old(self).tokens,
            old(self).error_at is Some ==> final(self).error_at == old(self).error_at,
            opt_stmt_view(r) == grammar::print_statement(old(self).toks(), old(self).pos()).0,
            final(self).pos() == grammar::print_statement(old(self).toks(), old(self).pos()).1,
            old(self).pos() <= final(self).pos(),
            r.is_some() ==> old(self).pos() < final(self).pos(),
        decreases old(self).tokens@.len() - old(self).current, 44int,
    {
        let value = self.expression();
        match value {
            None => None,
            Some(v) => {
                self.skip_semicolons();
                Some(Stmt::Print(Box::new(v)))
            },
        }
    }

    #[verifier::rlimit(100)]
    #[verifier::spinoff_prover]
    fn expression_statement(&mut self) -> (r: Option<Stmt>)
        requires
            old(self).wf(),
        ensures
            final(self).wf(),
            final(self).tokens == old(self).tokens,
            old(self).error_at is Some ==> final(self).error_at == old(self).error_at,
            opt_stmt_view(r) == grammar::expression_statement(old(self).toks(), old(self).pos()).0,
            final(self).pos() == grammar::expression_statement(old(self).toks(), old(self).pos()).1,
            old(self).pos() <= final(self).pos(),
            r.is_some() ==> old(self).pos() < final(self).pos(),
        decreases old(self).tokens@.len() - old(self).current, 43int,
    {
        let value = self.expression();
        match value {
            None => None,
            Some(v) => {
                self.skip_semicolons();
                Some(Stmt::Expression(Box::new(v)))
            },
        }
    }

    /// Notes the current position as where parsing failed, unless a failure was noted
    /// already.
    fn record_error(&mut self)
        requires
            old(self).wf(),
        ensures
            final(self).wf(),
            final(self).tokens == old(self).tokens,
            final(self).current == old(self).current,
            final(self).error_at == match old(self).error_at {
                Some(e) => Some(e),
                None => Some(old(self).current),
            },
    {
        if self.error_at.is_none() {
            self.error_at = Some(self.current);
        }
    }

    /// After a failed declaration, skips to a statement boundary.
    fn synchronize(&mut self)
        requires
            old(self).wf(),
        ensures
            final(self).wf(),
            final(self).tokens == old(self).tokens,
            old(self).error_at is Some ==> final(self).error_at == old(self).error_at,
            final(self).pos() == grammar::synchronize(old(self).toks(), old(self).pos()),
            old(self).pos() <= final(self).pos(),
    {
        let ghost t = self.toks();
        let ghost start = self.pos();
        self.advance();
        while !self.is_at_end()
            invariant
                self.wf(),
                self.tokens == old(self).tokens,
                old(self).error_at is Some ==> self.error_at == old(self).error_at,
                t == self.toks(),
                self.current >= 1 || grammar::at_end(t, self.pos()),
                start <= self.pos(),
                start == old(self).pos(),
                t == old(self).toks(),
                grammar::sync_from(t, self.pos()) == grammar::synchronize(t, start),
            decreases self.tokens@.len() - self.current,
        {
            if self.tokens[self.current - 1].token_type == TokenType::Semicolon {
                return;
            }
            let k = self.peek_kind();
            if k == TokenType::Var || k == TokenType::For || k == TokenType::If
                || k == TokenType::While || k == TokenType::Print {
                return;
            }
            self.advance();
        }
    }

    fn skip_semicolons(&mut self)
        requires
            old(self).wf(),
        ensures
            final(self).wf(),
            final(self).tokens == old(self).tokens,
            old(self).error_at is Some ==> final(self).error_at == old(self).error_at,
            final(self).pos() == grammar::skip_semicolons(old(self).toks(), old(self).pos()),
            old(self).pos() <= final(self).pos(),
    {
        while self.peek_kind() == TokenType::Semicolon
            invariant
                self.wf(),
                self.tokens == old(self).tokens,
                old(self).error_at is Some ==> self.error_at == old(self).error_at,
                grammar::skip_semicolons(self.toks(), self.pos())
                    == grammar::skip_semicolons(old(self).toks(), old(self).pos()),
                old(self).pos() <= self.pos(),
            decreases self.tokens@.len() - self.pos(),
        {
            self.advance();
        }
    }
}

fn is_equality_op_exec(k: TokenType) -> (r: bool)
    ensures
        r == grammar::is_equality_op(k),
{
    k == TokenType::BangEqual || k == TokenType::EqualEqual
}

fn is_comparison_op_exec(k: TokenType) -> (r: bool)
    ensures
        r == grammar::is_comparison_op(k),
{
    k == TokenType::Greater || k == TokenType::GreaterEqual || k == TokenType::Less
        || k == TokenType::LessEqual
}

fn is_term_op_exec(k: TokenType) -> (r: bool)
    ensures
        r == grammar::is_term_op(k),
{
    k == TokenType::Minus || k == TokenType::Plus
}

fn is_factor_op_exec(k: TokenType) -> (r: bool)
    ensures
        r == grammar::is_factor_op(k),
{
    k == TokenType::Slash || k == TokenType::Star
}

} // verus!
