use vstd::prelude::*;
use crate::token::{Token, TokenType, TokenView};
use crate::ast::{Expr, Stmt, ExprV, StmtV, items_view, stmts_view, lemma_items_index};
use crate::environment::{Environment, model_value, model_define, model_assign};

verus! {

/// A numeric operation on two values' texts (the second is ignored for `Negate`).
#[derive(Debug, Clone, Copy, PartialEq, Eq, Structural)]
pub enum NumOp {
    Add,
    Subtract,
    Multiply,
    Divide,
    Greater,
    GreaterEqual,
    Less,
    LessEqual,
    Negate,
}

/// Why evaluation stopped.
#[derive(Debug, Clone, Copy, PartialEq, Eq, Structural)]
pub enum RuntimeErrorKind {
    OperandMustBeNumber,
    OperandsMustBeNumbers,
    UndefinedVariable,
    UnknownOperator,
    StepLimitReached,
}

/// A runtime error and the line of the token it arose at.
#[derive(Debug, Clone, Copy, PartialEq, Eq, Structural)]
pub struct RuntimeError {
    pub kind: RuntimeErrorKind,
    pub line: usize,
}

/// The number of loop iterations a fresh interpreter may run.
pub const STEP_LIMIT: u64 = 0xffff_ffff_ffff_ffff;

pub type Scopes = Seq<Map<Seq<char>, Seq<char>>>;

/// What numeric operations answer: a result text, or `None` when an operand is not a
/// number.
pub type NumFn = spec_fn(NumOp, Seq<char>, Seq<char>) -> Option<Seq<char>>;

/// Exactly `nil` and `false` are falsy.
pub open spec fn truthy(v: Seq<char>) -> bool {
    v != "nil"@ && v != "false"@
}

/// Values are equal when their texts are; `nil` equals only `nil`.
pub open spec fn values_equal(a: Seq<char>, b: Seq<char>) -> bool {
    if a == "nil"@ { b == "nil"@ } else { a == b }
}

pub open spec fn bool_text(b: bool) -> Seq<char> {
    if b { "true"@ } else { "false"@ }
}

pub open spec fn opt_text(r: Option<String>) -> Option<Seq<char>> {
    match r {
        Some(s) => Some(s@),
        None => None,
    }
}

/// A function that computes numeric operations: it accepts any operation and operands,
/// and its answer depends on the operation and the operands' texts alone.
pub open spec fn numeric_fn<F: Fn(NumOp, String, String) -> Option<String>>(num: &F) -> bool {
    &&& forall|op: NumOp, a: String, b: String| #[trigger] num.requires((op, a, b))
    &&& forall|op: NumOp, a1: String, b1: String, r1: Option<String>, a2: String, b2: String, r2: Option<String>|
        #![trigger num.ensures((op, a1, b1), r1), num.ensures((op, a2, b2), r2)]
        num.ensures((op, a1, b1), r1) && num.ensures((op, a2, b2), r2) && a1@ == a2@ && b1@ == b2@
            ==> opt_text(r1) == opt_text(r2)
}

/// Whether `num` answers `r` on some operands with texts `a` and `b`.
pub open spec fn answers<F: Fn(NumOp, String, String) -> Option<String>>(num: &F, op: NumOp, a: Seq<char>, b: Seq<char>, r: Option<String>) -> bool {
    exists|x: String, y: String| x@ == a && y@ == b && #[trigger] num.ensures((op, x, y), r)
}

/// The answers of `num`, as a function of texts.
pub open spec fn num_model<F: Fn(NumOp, String, String) -> Option<String>>(num: &F) -> NumFn {
    |op: NumOp, a: Seq<char>, b: Seq<char>| opt_text(
        choose|r: Option<String>| #[trigger] answers(num, op, a, b, r),
    )
}

proof fn lemma_num<F: Fn(NumOp, String, String) -> Option<String>>(num: &F, op: NumOp, x: String, y: String, r: Option<String>)
    requires
        numeric_fn(num),
        num.ensures((op, x, y), r),
    ensures
        opt_text(r) == (num_model(num))(op, x@, y@),
{
    assert(answers(num, op, x@, y@, r));
    let w = choose|r2: Option<String>| #[trigger] answers(num, op, x@, y@, r2);
    let (x2, y2) = choose|x2: String, y2: String| x2@ == x@ && y2@ == y@ && #[trigger] num.ensures((op, x2, y2), w);
    assert(num.ensures((op, x2, y2), w));
}

pub open spec fn error_at(kind: RuntimeErrorKind, line: int) -> RuntimeError {
    RuntimeError { kind, line: line as usize }
}

/// A value, or the runtime error met instead.
pub type Outcome = Result<Seq<char>, RuntimeError>;

pub open spec fn unary_value(op: TokenView, v: Seq<char>, nf: NumFn) -> Outcome {
    if op.kind == TokenType::Minus {
        match nf(NumOp::Negate, v, seq![]) {
            Some(n) => Ok(n),
            None => Err(error_at(RuntimeErrorKind::OperandMustBeNumber, op.line)),
        }
    } else if op.kind == TokenType::Bang {
        Ok(bool_text(!truthy(v)))
    } else {
        Err(error_at(RuntimeErrorKind::UnknownOperator, op.line))
    }
}

/// The numeric operation of an arithmetic or comparison operator other than `+`.
pub open spec fn numeric_op(k: TokenType) -> Option<NumOp> {
    if k == TokenType::Minus { Some(NumOp::Subtract) }
    else if k == TokenType::Slash { Some(NumOp::Divide) }
    else if k == TokenType::Star { Some(NumOp::Multiply) }
    else if k == TokenType::Greater { Some(NumOp::Greater) }
    else if k == TokenType::GreaterEqual { Some(NumOp::GreaterEqual) }
    else if k == TokenType::Less { Some(NumOp::Less) }
    else if k == TokenType::LessEqual { Some(NumOp::LessEqual) }
    else { None }
}

/// A binary operator on two values: equality by text, `+` numeric when both operands are
/// numbers and concatenation otherwise, the rest numeric or an error.
pub open spec fn binary_value(op: TokenView, a: Seq<char>, b: Seq<char>, nf: NumFn) -> Outcome {
    let k = op.kind;
    if k == TokenType::EqualEqual {
        Ok(bool_text(values_equal(a, b)))
    } else if k == TokenType::BangEqual {
        Ok(bool_text(!values_equal(a, b)))
    } else if k == TokenType::Plus {
        match nf(NumOp::Add, a, b) {
            Some(n) => Ok(n),
            None => Ok(a + b),
        }
    } else {
        match numeric_op(k) {
            Some(o) => match nf(o, a, b) {
                Some(n) => Ok(n),
                None => Err(error_at(RuntimeErrorKind::OperandsMustBeNumbers, op.line)),
            },
            None => Err(error_at(RuntimeErrorKind::UnknownOperator, op.line)),
        }
    }
}

/// The value of an expression (or the runtime error met) and the scopes after it.
pub open spec fn eval(e: ExprV, m: Scopes, nf: NumFn) -> (Outcome, Scopes)
    decreases e,
{
    match e {
        ExprV::Literal(s) => (Ok(s), m),
        ExprV::Grouping(x) => eval(*x, m, nf),
        ExprV::Variable(t) => match model_value(m, t.text) {
            Some(v) => (Ok(v), m),
            None => (Err(error_at(RuntimeErrorKind::UndefinedVariable, t.line)), m),
        },
        ExprV::Assign(t, x) => {
            let (v, m1) = eval(*x, m, nf);
            match v {
                Err(er) => (Err(er), m1),
                Ok(val) => match model_assign(m1, t.text, val) {
                    Some(m2) => (Ok(val), m2),
                    None => (Err(error_at(RuntimeErrorKind::UndefinedVariable, t.line)), m1),
                },
            }
        },
        ExprV::Unary(op, x) => {
            let (v, m1) = eval(*x, m, nf);
            match v {
                Err(er) => (Err(er), m1),
                Ok(val) => (unary_value(op, val, nf), m1),
            }
        },
        ExprV::Ternary(c, a, b) => {
            let (v, m1) = eval(*c, m, nf);
            match v {
                Err(er) => (Err(er), m1),
                Ok(cv) => if truthy(cv) { eval(*a, m1, nf) } else { eval(*b, m1, nf) },
            }
        },
        ExprV::Logical(l, op, r) => {
            let (v, m1) = eval(*l, m, nf);
            match v {
                Err(er) => (Err(er), m1),
                Ok(lv) => if op.kind == TokenType::Or {
                    if truthy(lv) { (Ok(lv), m1) } else { eval(*r, m1, nf) }
                } else {
                    if !truthy(lv) { (Ok(lv), m1) } else { eval(*r, m1, nf) }
                },
            }
        },
        ExprV::Binary(l, op, r) => {
            let (a, m1) = eval(*l, m, nf);
            match a {
                Err(er) => (Err(er), m1),
                Ok(av) => {
                    let (b, m2) = eval(*r, m1, nf);
                    match b {
                        Err(er) => (Err(er), m2),
                        Ok(bv) => (binary_value(op, av, bv, nf), m2),
                    }
                },
            }
        },
    }
}

/// What a run has produced: the scopes, the lines printed, the loop iterations left and
/// the runtime errors met.
pub struct Run {
    pub env: Scopes,
    pub out: Seq<Seq<char>>,
    pub steps: nat,
    pub errors: Seq<RuntimeError>,
}

pub open spec fn with_env(st: Run, m: Scopes) -> Run {
    Run { env: m, out: st.out, steps: st.steps, errors: st.errors }
}

/// The run after an evaluation: its scopes, and its error logged if it failed.
pub open spec fn after_eval(st: Run, v: Outcome, m: Scopes) -> Run {
    Run {
        env: m,
        out: st.out,
        steps: st.steps,
        errors: match v {
            Ok(_) => st.errors,
            Err(er) => st.errors.push(er),
        },
    }
}

/// Running one statement: whether it succeeded, and the run after it.
pub open spec fn exec_stmt(s: StmtV, st: Run, nf: NumFn) -> (bool, Run)
    decreases st.steps, s, 1int, 0int,
{
    match s {
        StmtV::Expression(e) => {
            let (v, m) = eval(e, st.env, nf);
            (v is Ok, after_eval(st, v, m))
        },
        StmtV::Print(e) => {
            let (v, m) = eval(e, st.env, nf);
            match v {
                Err(_) => (false, after_eval(st, v, m)),
                Ok(x) => (true, Run { env: m, out: st.out.push(x), steps: st.steps, errors: st.errors }),
            }
        },
        StmtV::Let(name, init) => match init {
            None => (true, with_env(st, model_define(st.env, name.text, "nil"@))),
            Some(e) => {
                let (v, m) = eval(e, st.env, nf);
                let val = match v {
                    Ok(x) => x,
                    Err(_) => "nil"@,
                };
                let st1 = after_eval(st, v, m);
                (true, with_env(st1, model_define(m, name.text, val)))
            },
        },
        StmtV::Block(items) => block_run(items, st, nf),
        StmtV::If(c, a, b) => {
            let (v, m) = eval(c, st.env, nf);
            let st1 = after_eval(st, v, m);
            match v {
                Err(_) => (false, st1),
                Ok(cv) => if truthy(cv) {
                    exec_stmt(*a, st1, nf)
                } else {
                    match b {
                        Some(bb) => exec_stmt(*bb, st1, nf),
                        None => (true, st1),
                    }
                },
            }
        },
        StmtV::While(c, b) => exec_while(c, *b, st, nf),
    }
}

/// A `while` loop: each iteration takes one step of the budget; running out fails.
pub open spec fn exec_while(c: ExprV, b: StmtV, st: Run, nf: NumFn) -> (bool, Run)
    decreases st.steps, b, 2int, 0int,
{
    let (v, m) = eval(c, st.env, nf);
    let st1 = after_eval(st, v, m);
    match v {
        Err(_) => (false, st1),
        Ok(cv) => if !truthy(cv) {
            (true, st1)
        } else if st1.steps == 0 {
            (false, Run {
                env: st1.env,
                out: st1.out,
                steps: st1.steps,
                errors: st1.errors.push(error_at(RuntimeErrorKind::StepLimitReached, 0)),
            })
        } else {
            let st2 = Run { env: st1.env, out: st1.out, steps: (st1.steps - 1) as nat, errors: st1.errors };
            let (ok, st3) = exec_stmt(b, st2, nf);
            if !ok {
                (false, st3)
            } else if st3.steps < st.steps {
                exec_while(c, b, st3, nf)
            } else {
                (false, st3)
            }
        },
    }
}

/// A block: its statements in a fresh innermost scope, which is dropped afterwards.
pub open spec fn block_run(items: Seq<StmtV>, st: Run, nf: NumFn) -> (bool, Run)
    decreases st.steps, items, 1int, 0int,
{
    let (ok, st2) = exec_items(items, 0, with_env(st, st.env.push(Map::empty())), nf);
    (ok, with_env(st2, st2.env.drop_last()))
}

/// Statements `i..` in order, stopping at the first that fails.
pub open spec fn exec_items(items: Seq<StmtV>, i: int, st: Run, nf: NumFn) -> (bool, Run)
    decreases st.steps, items, 0int, items.len() - i,
{
    if i < 0 || i >= items.len() {
        (true, st)
    } else {
        let (ok, st2) = exec_stmt(items[i], st, nf);
        if !ok {
            (false, st2)
        } else if st2.steps <= st.steps {
            exec_items(items, i + 1, st2, nf)
        } else {
            (false, st2)
        }
    }
}

/// `b` starts with the lines of `a`.
pub open spec fn extends(a: Seq<Seq<char>>, b: Seq<Seq<char>>) -> bool {
    a.len() <= b.len() && forall|i: int| 0 <= i < a.len() ==> a[i] == b[i]
}

/// Running a statement only adds printed lines after those already printed; the same
/// holds, below, of loops, blocks and runs of statements, so a run that fails keeps what
/// was printed before the failure.
pub proof fn lemma_stmt_output(s: StmtV, st: Run, nf: NumFn)
    ensures
        extends(st.out, exec_stmt(s, st, nf).1.out),
        exec_stmt(s, st, nf).1.steps <= st.steps,
    decreases st.steps, s, 1int, 0int,
{
    match s {
        StmtV::Block(items) => lemma_block_output(items, st, nf),
        StmtV::If(c, a, b) => {
            let (v, m) = eval(c, st.env, nf);
            let st1 = after_eval(st, v, m);
            if v is Ok {
                if truthy(v->Ok_0) {
                    lemma_stmt_output(*a, st1, nf);
                } else if b is Some {
                    lemma_stmt_output(*b.unwrap(), st1, nf);
                }
            }
        },
        StmtV::While(c, b) => lemma_while_output(c, *b, st, nf),
        _ => {},
    }
}

pub proof fn lemma_while_output(c: ExprV, b: StmtV, st: Run, nf: NumFn)
    ensures
        extends(st.out, exec_while(c, b, st, nf).1.out),
        exec_while(c, b, st, nf).1.steps <= st.steps,
    decreases st.steps, b, 2int, 0int,
{
    let (v, m) = eval(c, st.env, nf);
    let st1 = after_eval(st, v, m);
    if v is Ok && truthy(v->Ok_0) && st1.steps > 0 {
        let st2 = Run { env: st1.env, out: st1.out, steps: (st1.steps - 1) as nat, errors: st1.errors };
        lemma_stmt_output(b, st2, nf);
        let (ok, st3) = exec_stmt(b, st2, nf);
        if ok && st3.steps < st.steps {
            lemma_while_output(c, b, st3, nf);
        }
    }
}

pub proof fn lemma_block_output(items: Seq<StmtV>, st: Run, nf: NumFn)
    ensures
        extends(st.out, block_run(items, st, nf).1.out),
        block_run(items, st, nf).1.steps <= st.steps,
    decreases st.steps, items, 1int, 0int,
{
    lemma_items_output(items, 0, with_env(st, st.env.push(Map::empty())), nf);
}

pub proof fn lemma_items_output(items: Seq<StmtV>, i: int, st: Run, nf: NumFn)
    ensures
        extends(st.out, exec_items(items, i, st, nf).1.out),
        exec_items(items, i, st, nf).1.steps <= st.steps,
    decreases st.steps, items, 0int, items.len() - i,
{
    if 0 <= i < items.len() {
        lemma_stmt_output(items[i], st, nf);
        let (ok, st2) = exec_stmt(items[i], st, nf);
        if ok && st2.steps <= st.steps {
            lemma_items_output(items, i + 1, st2, nf);
        }
    }
}

/// An exec result agrees with an outcome: the value on success; on failure no value and
/// the error appended to the log.
pub open spec fn logged(r: Option<String>, o: Outcome, before: Seq<RuntimeError>, after: Seq<RuntimeError>) -> bool {
    match o {
        Ok(v) => r is Some && r.unwrap()@ == v && after == before,
        Err(e) => r is None && after == before.push(e),
    }
}

pub open spec fn out_text(v: Seq<String>) -> Seq<Seq<char>> {
    v.map_values(|s: String| s@)
}

/// Walks statements and expressions over a chain of scopes, collecting what they print.
pub struct Interpreter {
    environment: Environment,
    output: Vec<String>,
    errors: Vec<RuntimeError>,
    steps: u64,
}

impl Interpreter {
    pub closed spec fn env(&self) -> Environment {
        self.environment
    }

    /// The scopes, the lines printed so far and the loop iterations left.
    pub closed spec fn state(&self) -> Run {
        Run { env: self.environment.model(), out: out_text(self.output@), steps: self.steps as nat, errors: self.errors@ }
    }

    /// The runtime errors met so far.
    pub closed spec fn error_log(&self) -> Seq<RuntimeError> {
        self.errors@
    }

    pub closed spec fn wf(&self) -> bool {
        self.environment.wf()
    }

    pub fn new() -> (r: Interpreter)
        ensures
            r.wf(),
            r.env().depth() == 1,
            r.state() == (Run { env: seq![Map::empty()], out: seq![], steps: STEP_LIMIT as nat, errors: seq![] }),
            r.error_log().len() == 0,
    {
        let r = Interpreter { environment: Environment::new(), output: Vec::new(), errors: Vec::new(), steps: STEP_LIMIT };
        assert(out_text(r.output@) =~= seq![]);
        r
    }

    /// The lines printed so far.
    pub fn output(&self) -> (r: &Vec<String>)
        ensures
            out_text(r@) == self.state().out,
    {
        &self.output
    }

    /// The runtime errors met so far.
    pub fn errors(&self) -> (r: &Vec<RuntimeError>)
        ensures
            r@ == self.error_log(),
    {
        &self.errors
    }

    /// Runs the statements in order and stops at the first that fails: `None` then, with
    /// the error logged; `Some(())` when all ran. What it prints and binds is the run of
    /// `exec_items` on them.
    pub fn interpret<F: Fn(NumOp, String, String) -> Option<String>>(&mut self, statements: Vec<Stmt>, num: &F) -> (r: Option<()>)
        requires
            old(self).wf(),
            numeric_fn(num),
        ensures
            final(self).wf(),
            final(self).env().depth() == old(self).env().depth(),
            (r is Some, final(self).state()) == exec_items(stmts_view(statements@), 0, old(self).state(), num_model(num)),
            extends(old(self).state().out, final(self).state().out),
    {
        let ghost sv = stmts_view(statements@);
        let ghost st0 = self.state();
        proof {
            lemma_items_output(sv, 0, st0, num_model(num));
        }
        let mut i: usize = 0;
        while i < statements.len()
            invariant
                self.wf(),
                self.env().depth() == old(self).env().depth(),
                numeric_fn(num),
                sv == stmts_view(statements@),
                st0 == old(self).state(),
                extends(st0.out, exec_items(sv, 0, st0, num_model(num)).1.out),
                i <= statements@.len(),
                exec_items(sv, i as int, self.state(), num_model(num)) == exec_items(sv, 0, st0, num_model(num)),
            decreases statements@.len() - i,
        {
            assert(sv[i as int] == statements@[i as int]@);
            if !self.execute(&statements[i], num) {
                return None;
            }
            i = i + 1;
        }
        Some(())
    }

    fn fail(&mut self, kind: RuntimeErrorKind, line: usize)
        ensures
            final(self).environment == old(self).environment,
            final(self).output == old(self).output,
            final(self).steps == old(self).steps,
            final(self).errors@ == old(self).errors@.push(RuntimeError { kind, line }),
    {
        self.errors.push(RuntimeError { kind, line });
    }

    fn print_line(&mut self, v: String)
        ensures
            final(self).environment == old(self).environment,
            final(self).steps == old(self).steps,
            final(self).errors == old(self).errors,
            out_text(final(self).output@) == out_text(old(self).output@).push(v@),
    {
        let ghost before = out_text(self.output@);
        self.output.push(v);
        assert(out_text(self.output@) =~= before.push(v@));
    }

    /// Runs one statement; `false` when it failed.
    fn execute<F: Fn(NumOp, String, String) -> Option<String>>(&mut self, stmt: &Stmt, num: &F) -> (ok: bool)
        requires
            old(self).wf(),
            numeric_fn(num),
        ensures
            final(self).wf(),
            final(self).env().depth() == old(self).env().depth(),
            (ok, final(self).state()) == exec_stmt(stmt@, old(self).state(), num_model(num)),
            final(self).steps <= old(self).steps,
        decreases stmt, 1int,
    {
        match stmt {
            Stmt::Expression(e) => self.evaluate(e, num).is_some(),
            Stmt::Print(e) => {
                match self.evaluate(e, num) {
                    Some(v) => {
                        self.print_line(v);
                        true
                    },
                    None => false,
                }
            },
            Stmt::Let(name, init) => {
                let value = match init {
                    Some(e) => match self.evaluate(e, num) {
                        Some(v) => v,
                        None => String::from_str("nil"),
                    },
                    None => String::from_str("nil"),
                };
                self.environment.define(name.lexeme.clone(), value);
                true
            },
            Stmt::Block(statements) => self.execute_block(statements, num),
            Stmt::If(cond, then_branch, else_branch) => {
                match self.evaluate(cond, num) {
                    None => false,
                    Some(c) => {
                        if is_truthy(&c) {
                            self.execute(then_branch, num)
                        } else {
                            match &**else_branch {
                                Some(s) => self.execute(s, num),
                                None => true,
                            }
                        }
                    },
                }
            },
            Stmt::While(cond, body) => self.while_statement(cond, body, num),
        }
    }

    fn while_statement<F: Fn(NumOp, String, String) -> Option<String>>(&mut self, cond: &Expr, body: &Stmt, num: &F) -> (ok: bool)
        requires
            old(self).wf(),
            numeric_fn(num),
        ensures
            final(self).wf(),
            final(self).env().depth() == old(self).env().depth(),
            (ok, final(self).state()) == exec_while(cond@, body@, old(self).state(), num_model(num)),
            final(self).steps <= old(self).steps,
        decreases body, 2int,
    {
        let ghost st0 = self.state();
        loop
            invariant
                self.wf(),
                self.env().depth() == old(self).env().depth(),
                self.steps <= old(self).steps,
                numeric_fn(num),
                st0 == old(self).state(),
                exec_while(cond@, body@, self.state(), num_model(num)) == exec_while(cond@, body@, st0, num_model(num)),
            decreases self.steps,
        {
            let ghost st = self.state();
            match self.evaluate(cond, num) {
                None => {
                    return false;
                },
                Some(c) => {
                    if !is_truthy(&c) {
                        return true;
                    }
                },
            }
            if self.steps == 0 {
                self.fail(RuntimeErrorKind::StepLimitReached, 0);
                return false;
            }
            self.steps = self.steps - 1;
            if !self.execute(body, num) {
                return false;
            }
            assert(self.state().steps < st.steps);
        }
    }

    /// Runs a block's statements in a fresh scope, which is dropped afterwards.
    fn execute_block<F: Fn(NumOp, String, String) -> Option<String>>(&mut self, statements: &Vec<Box<Stmt>>, num: &F) -> (ok: bool)
        requires
            old(self).wf(),
            numeric_fn(num),
        ensures
            final(self).wf(),
            final(self).env().depth() == old(self).env().depth(),
            (ok, final(self).state()) == block_run(items_view(statements@), old(self).state(), num_model(num)),
            final(self).steps <= old(self).steps,
        decreases statements, 0int,
    {
        let ghost items = items_view(statements@);
        proof {
            lemma_items_index(statements@);
        }
        let mut env = Environment::new();
        core::mem::swap(&mut env, &mut self.environment);
        self.environment = Environment::with_enclosing(env);
        let ghost st1 = self.state();
        assert(st1 == with_env(old(self).state(), old(self).state().env.push(Map::empty())));
        let ghost depth = self.environment.depth();
        let mut i: usize = 0;
        while i < statements.len()
            invariant
                self.wf(),
                self.env().depth() == depth,
                depth >= 2,
                depth == old(self).env().depth() + 1,
                self.steps <= old(self).steps,
                numeric_fn(num),
                items == items_view(statements@),
                items.len() == statements@.len(),
                forall|j: int| 0 <= j < statements@.len() ==> #[trigger] items[j] == (*statements@[j])@,
                i <= statements@.len(),
                st1 == with_env(old(self).state(), old(self).state().env.push(Map::empty())),
                exec_items(items, i as int, self.state(), num_model(num)) == exec_items(items, 0, st1, num_model(num)),
            decreases statements@.len() - i,
        {
            assert(items[i as int] == (*statements@[i as int])@);
            let ghost cur = self.state();
            if !self.execute(&statements[i], num) {
                assert(exec_items(items, i as int, cur, num_model(num)).0 == false);
                assert(exec_items(items, i as int, cur, num_model(num)).1 == self.state());
                let ghost pre = self.state();
                self.environment.exit_scope();
                assert(self.state() == with_env(pre, pre.env.drop_last()));
                return false;
            }
            i = i + 1;
        }
        self.environment.exit_scope();
        true
    }

    /// The value of an expression, or `None` at a runtime error, which is logged.
    fn evaluate<F: Fn(NumOp, String, String) -> Option<String>>(&mut self, expr: &Expr, num: &F) -> (r: Option<String>)
        requires
            old(self).wf(),
            numeric_fn(num),
        ensures
            final(self).wf(),
            final(self).env().depth() == old(self).env().depth(),
            final(self).output == old(self).output,
            final(self).steps == old(self).steps,
            final(self).environment.model() == eval(expr@, old(self).environment.model(), num_model(num)).1,
            logged(r, eval(expr@, old(self).environment.model(), num_model(num)).0, old(self).errors@, final(self).errors@),
        decreases expr,
    {
        match expr {
            Expr::Literal(s) => Some(s.clone()),
            Expr::Grouping(e) => self.evaluate(e, num),
            Expr::Variable(t) => {
                let v = self.environment.get(t.duplicate());
                if v.is_none() {
                    self.fail(RuntimeErrorKind::UndefinedVariable, t.line);
                }
                v
            },
            Expr::Assign(t, e) => {
                match self.evaluate(e, num) {
                    None => None,
                    Some(v) => {
                        match self.environment.assign(t.duplicate(), v.clone()) {
                            Some(_) => Some(v),
                            None => {
                                self.fail(RuntimeErrorKind::UndefinedVariable, t.line);
                                None
                            },
                        }
                    },
                }
            },
            Expr::Unary(op, e) => {
                let v = self.evaluate(e, num);
                match v {
                    None => None,
                    Some(v) => {
                        if op.token_type == TokenType::Minus {
                            let empty = String::new();
                            let ghost vv = v@;
                            let ghost ev = empty@;
                            let res = num(NumOp::Negate, v, empty);
                            proof {
                                lemma_num(num, NumOp::Negate, v, empty, res);
                                assert(ev == Seq::<char>::empty());
                            }
                            match res {
                                Some(n) => Some(n),
                                None => {
                                    self.fail(RuntimeErrorKind::OperandMustBeNumber, op.line);
                                    None
                                },
                            }
                        } else if op.token_type == TokenType::Bang {
                            Some(text_of_bool(!is_truthy(&v)))
                        } else {
                            self.fail(RuntimeErrorKind::UnknownOperator, op.line);
                            None
                        }
                    },
                }
            },
            Expr::Ternary(c, a, b) => {
                match self.evaluate(c, num) {
                    None => None,
                    Some(cv) => {
                        if is_truthy(&cv) {
                            self.evaluate(a, num)
                        } else {
                            self.evaluate(b, num)
                        }
                    },
                }
            },
            Expr::Logical(l, op, rgt) => {
                match self.evaluate(l, num) {
                    None => None,
                    Some(lv) => {
                        if op.token_type == TokenType::Or {
                            if is_truthy(&lv) {
                                return Some(lv);
                            }
                        } else {
                            if !is_truthy(&lv) {
                                return Some(lv);
                            }
                        }
                        self.evaluate(rgt, num)
                    },
                }
            },
            Expr::Binary(l, op, rgt) => {
                let lv = match self.evaluate(l, num) {
                    None => {
                        return None;
                    },
                    Some(v) => v,
                };
                let rv = match self.evaluate(rgt, num) {
                    None => {
                        return None;
                    },
                    Some(v) => v,
                };
                self.binary(op, lv, rv, num)
            },
        }
    }

    /// A binary operator applied to two values.
    fn binary<F: Fn(NumOp, String, String) -> Option<String>>(&mut self, op: &Token, lv: String, rv: String, num: &F) -> (r: Option<String>)
        requires
            numeric_fn(num),
        ensures
            final(self).environment == old(self).environment,
            final(self).output == old(self).output,
            final(self).steps == old(self).steps,
            logged(r, binary_value(op@, lv@, rv@, num_model(num)), old(self).errors@, final(self).errors@),
    {
        let k = op.token_type;
        if k == TokenType::EqualEqual {
            return Some(text_of_bool(is_equals(&lv, &rv)));
        }
        if k == TokenType::BangEqual {
            return Some(text_of_bool(!is_equals(&lv, &rv)));
        }
        if k == TokenType::Plus {
            let lc = lv.clone();
            let rc = rv.clone();
            let res = num(NumOp::Add, lc, rc);
            proof {
                lemma_num(num, NumOp::Add, lc, rc, res);
            }
            return match res {
                Some(n) => Some(n),
                None => Some(lv.concat(rv.as_str())),
            };
        }
        let nop = if k == TokenType::Minus {
            NumOp::Subtract
        } else if k == TokenType::Slash {
            NumOp::Divide
        } else if k == TokenType::Star {
            NumOp::Multiply
        } else if k == TokenType::Greater {
            NumOp::Greater
        } else if k == TokenType::GreaterEqual {
            NumOp::GreaterEqual
        } else if k == TokenType::Less {
            NumOp::Less
        } else if k == TokenType::LessEqual {
            NumOp::LessEqual
        } else {
            self.fail(RuntimeErrorKind::UnknownOperator, op.line);
            return None;
        };
        let ghost lvv = lv@;
        let ghost rvv = rv@;
        let res = num(nop, lv, rv);
        proof {
            lemma_num(num, nop, lv, rv, res);
        }
        match res {
            Some(n) => Some(n),
            None => {
                self.fail(RuntimeErrorKind::OperandsMustBeNumbers, op.line);
                None
            },
        }
    }
}

/// Whether a value counts as true.
pub fn is_truthy(v: &String) -> (r: bool)
    ensures
        r == truthy(v@),
{
    let nil = String::from_str("nil");
    let f = String::from_str("false");
    !(*v == nil) && !(*v == f)
}

/// Whether two values are equal: by text, with `nil` equal only to `nil`.
pub fn is_equals(a: &String, b: &String) -> (r: bool)
    ensures
        r == values_equal(a@, b@),
{
    let nil = String::from_str("nil");
    if *a == nil {
        *b == nil
    } else {
        *a == *b
    }
}

/// `"true"` or `"false"`.
pub fn text_of_bool(b: bool) -> (r: String)
    ensures
        r@ == bool_text(b),
{
    if b { String::from_str("true") } else { String::from_str("false") }
}

} // verus!
