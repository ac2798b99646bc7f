//! The interpreter: walks the syntax tree, changes the environment and
//! collects what is printed.

use vstd::prelude::*;
use crate::ast::{Expr, ExprView, Ident, Statement, StatementView};
use crate::environment::{
    env_assign, env_declare, lemma_assign_len, EnvView, Environment, ScopeView,
};
use crate::token::{Token, TokenType, TokenTypeView, TokenView};
use crate::value::{
    arith, negate_bool, negate_number, opt_view, literal_value, resolved, truthy, ArithOp,
    RValue, RValueView, RuntimeError, RuntimeErrorView, Value, ValueView,
};

verus! {

/// What evaluating an expression leaves: the environment, and the value or
/// the error.
pub type Evaluated = (EnvView, Result<ValueView, RuntimeErrorView>);

/// The environment and what has been printed.
pub struct State {
    pub env: EnvView,
    pub output: Seq<RValueView>,
}

/// What executing a statement leaves: the state, and the error if any.
pub type Executed = (State, Result<(), RuntimeErrorView>);

/// The error of a token used as what it is not.
pub open spec fn misused(t: TokenView, what: Seq<char>) -> RuntimeErrorView {
    RuntimeErrorView::TypeMismatch(t.lexeme, what)
}

/// The arithmetic operator that a token type stands for, if any.
pub open spec fn arith_op(t: TokenTypeView) -> Option<ArithOp> {
    match t {
        TokenTypeView::Plus => Some(ArithOp::Add),
        TokenTypeView::Minus => Some(ArithOp::Sub),
        TokenTypeView::Star => Some(ArithOp::Mul),
        TokenTypeView::Slash => Some(ArithOp::Div),
        _ => None,
    }
}

/// Whether `v` counts as true in `env`.
pub open spec fn truth_of(v: ValueView, env: EnvView) -> Result<bool, RuntimeErrorView> {
    match resolved(v, env) {
        Ok(r) => truthy(r),
        Err(e) => Err(e),
    }
}

/// The boolean `b` as the value of an expression.
pub open spec fn boolean(b: bool) -> ValueView {
    ValueView::R(RValueView::Boolean(b))
}

/// What the unary operator `op` makes of `v` in `env`.
pub open spec fn unary_value(op: TokenView, v: ValueView, env: EnvView) -> Result<
    ValueView,
    RuntimeErrorView,
> {
    match resolved(v, env) {
        Err(e) => Err(e),
        Ok(r) => if op.token_type is Bang {
            match negate_bool(r) {
                Ok(x) => Ok(ValueView::R(x)),
                Err(e) => Err(e),
            }
        } else if op.token_type is Minus {
            match negate_number(r) {
                Ok(x) => Ok(ValueView::R(x)),
                Err(e) => Err(e),
            }
        } else {
            Err(misused(op, "not a unary operator"@))
        },
    }
}

/// What the arithmetic operator `op` makes of `l` and `r` in `env`.
pub open spec fn binary_value(op: TokenView, l: ValueView, r: ValueView, env: EnvView) -> Result<
    ValueView,
    RuntimeErrorView,
> {
    match arith_op(op.token_type) {
        None => Err(misused(op, "not an arithmetic operator"@)),
        Some(a) => match resolved(l, env) {
            Err(e) => Err(e),
            Ok(x) => match resolved(r, env) {
                Err(e) => Err(e),
                Ok(y) => match arith(a, x, y) {
                    Ok(z) => Ok(ValueView::R(z)),
                    Err(e) => Err(e),
                },
            },
        },
    }
}

/// Evaluates `expr` in `env`.
///
/// A literal is its value, a name is itself. `and` and `or` evaluate their
/// right side only where the left does not decide. An arithmetic operator
/// evaluates both sides, then reads the names among them. An assignment
/// evaluates its right side and puts the value in the nearest scope that
/// holds the name. What an expression changed before it failed stays
/// changed.
pub open spec fn eval(expr: ExprView, env: EnvView) -> Evaluated
    decreases expr,
{
    match expr {
        ExprView::Literal(t) => match literal_value(t.token_type) {
            Some(v) => (env, Ok(v)),
            None => (env, Err(misused(t, "not a value"@))),
        },
        ExprView::Grouping(e) => eval(*e, env),
        ExprView::Unary(op, e) => {
            let (env1, r) = eval(*e, env);
            match r {
                Err(e) => (env1, Err(e)),
                Ok(v) => (env1, unary_value(op, v, env1)),
            }
        },
        ExprView::Binary(l, op, r) => {
            let (env1, left) = eval(*l, env);
            match left {
                Err(e) => (env1, Err(e)),
                Ok(lv) => if op.token_type is Or || op.token_type is And {
                    match truth_of(lv, env1) {
                        Err(e) => (env1, Err(e)),
                        Ok(b) => if b == (op.token_type is Or) {
                            (env1, Ok(boolean(b)))
                        } else {
                            let (env2, right) = eval(*r, env1);
                            match right {
                                Err(e) => (env2, Err(e)),
                                Ok(rv) => match truth_of(rv, env2) {
                                    Err(e) => (env2, Err(e)),
                                    Ok(c) => (env2, Ok(boolean(c))),
                                },
                            }
                        },
                    }
                } else {
                    let (env2, right) = eval(*r, env1);
                    match right {
                        Err(e) => (env2, Err(e)),
                        Ok(rv) => (env2, binary_value(op, lv, rv, env2)),
                    }
                },
            }
        },
        ExprView::Assignment(target, _, rhs) => {
            let (env1, r) = eval(*rhs, env);
            match r {
                Err(e) => (env1, Err(e)),
                Ok(v) => match resolved(v, env1) {
                    Err(e) => (env1, Err(e)),
                    Ok(x) => match env_assign(env1, target.name, x) {
                        Some(env2) => (env2, Ok(ValueView::L(target.name))),
                        None => (
                            env1,
                            Err(RuntimeErrorView::AssignToUndeclaredVariable(target.name)),
                        ),
                    },
                },
            }
        },
    }
}

/// Evaluates `expr` in `env` to a value, reading the name if it is one.
pub open spec fn eval_value(expr: ExprView, env: EnvView) -> (EnvView, Result<
    RValueView,
    RuntimeErrorView,
>) {
    let (env1, r) = eval(expr, env);
    match r {
        Err(e) => (env1, Err(e)),
        Ok(v) => (env1, resolved(v, env1)),
    }
}

/// Evaluates `expr` in `env` to true or false.
pub open spec fn eval_truth(expr: ExprView, env: EnvView) -> (EnvView, Result<
    bool,
    RuntimeErrorView,
>) {
    let (env1, r) = eval(expr, env);
    match r {
        Err(e) => (env1, Err(e)),
        Ok(v) => (env1, truth_of(v, env1)),
    }
}

/// Declares `name` in the innermost scope of the state.
pub open spec fn declare(st: State, env: EnvView, name: Seq<char>, v: Option<RValueView>)
    -> Executed {
    match env_declare(env, name, v) {
        Some(env1) => (State { env: env1, output: st.output }, Ok(())),
        None => (
            State { env, output: st.output },
            Err(RuntimeErrorView::DuplicateDeclaration(name)),
        ),
    }
}

/// Executes `stmt` in the state `st`; no loop makes more than `limit`
/// passes.
///
/// A block opens a scope, executes its statements in order and closes the
/// scope, whatever happened in it. A loop evaluates its condition anew
/// before every pass. Execution stops at the first error; what was changed
/// and printed before it stays.
pub open spec fn exec_stmt(stmt: StatementView, st: State, limit: nat) -> Executed
    decreases stmt, 1nat, 0nat,
{
    match stmt {
        StatementView::Empty => (st, Ok(())),
        StatementView::Print(e) => {
            let (env1, r) = eval_value(e, st.env);
            match r {
                Ok(v) => (State { env: env1, output: st.output.push(v) }, Ok(())),
                Err(e) => (State { env: env1, output: st.output }, Err(e)),
            }
        },
        StatementView::Expr(e) => {
            let (env1, r) = eval(e, st.env);
            match r {
                Ok(_) => (State { env: env1, output: st.output }, Ok(())),
                Err(e) => (State { env: env1, output: st.output }, Err(e)),
            }
        },
        StatementView::Var(ident, init) => match init {
            None => declare(st, st.env, ident.name, None),
            Some(e) => {
                let (env1, r) = eval_value(e, st.env);
                match r {
                    Ok(v) => declare(st, env1, ident.name, Some(v)),
                    Err(e) => (State { env: env1, output: st.output }, Err(e)),
                }
            },
        },
        StatementView::Block(stmts) => {
            let inner = State { env: st.env.push(ScopeView::empty()), output: st.output };
            let (st1, r) = exec_block(stmt, 0, inner, limit);
            (State { env: st1.env.drop_last(), output: st1.output }, r)
        },
        StatementView::If(cond, then, otherwise) => {
            let (env1, r) = eval_truth(cond, st.env);
            let st1 = State { env: env1, output: st.output };
            match r {
                Err(e) => (st1, Err(e)),
                Ok(b) => if b {
                    exec_stmt(*then, st1, limit)
                } else {
                    match otherwise {
                        Some(s) => exec_stmt(*s, st1, limit),
                        None => (st1, Ok(())),
                    }
                },
            }
        },
        StatementView::While(cond, body) => exec_while(stmt, st, limit, limit),
    }
}

/// Executes the statements of the block `whole` from the `i`-th on.
pub open spec fn exec_block(whole: StatementView, i: nat, st: State, limit: nat) -> Executed
    decreases whole, 0nat, (if whole is Block { whole->Block_0.len() - i } else { 0 }),
{
    match whole {
        StatementView::Block(stmts) => if i >= stmts.len() {
            (st, Ok(()))
        } else {
            let (st1, r) = exec_stmt(stmts[i as int], st, limit);
            match r {
                Err(e) => (st1, Err(e)),
                Ok(_) => exec_block(whole, i + 1, st1, limit),
            }
        },
        _ => (st, Ok(())),
    }
}

/// Executes the loop `whole`, which may make `left` more passes.
pub open spec fn exec_while(whole: StatementView, st: State, left: nat, limit: nat) -> Executed
    decreases whole, 0nat, left,
{
    match whole {
        StatementView::While(cond, body) => {
            let (env1, r) = eval_truth(cond, st.env);
            let st1 = State { env: env1, output: st.output };
            match r {
                Err(e) => (st1, Err(e)),
                Ok(b) => if !b {
                    (st1, Ok(()))
                } else if left == 0 {
                    (st1, Err(RuntimeErrorView::LoopLimit))
                } else {
                    let (st2, r2) = exec_stmt(*body, st1, limit);
                    match r2 {
                        Err(e) => (st2, Err(e)),
                        Ok(_) => exec_while(whole, st2, (left - 1) as nat, limit),
                    }
                },
            }
        },
        _ => (st, Ok(())),
    }
}

/// The views of the values of `values`.
pub open spec fn rvalue_views(values: Seq<RValue>) -> Seq<RValueView> {
    values.map_values(|v: RValue| v@)
}

/// Whether `r` is the value or the error `spec`.
pub open spec fn is_value(r: Result<Value, RuntimeError>, spec: Result<ValueView, RuntimeErrorView>)
    -> bool {
    match (r, spec) {
        (Ok(v), Ok(s)) => v@ == s,
        (Err(e), Err(s)) => e@ == s,
        _ => false,
    }
}

/// Whether `r` is the success or the error `spec`.
pub open spec fn is_done(r: Result<(), RuntimeError>, spec: Result<(), RuntimeErrorView>) -> bool {
    match (r, spec) {
        (Ok(_), Ok(_)) => true,
        (Err(e), Err(s)) => e@ == s,
        _ => false,
    }
}

/// The arithmetic operator that a token type stands for, if any.
fn arith_op_of(t: &TokenType) -> (r: Option<ArithOp>)
    ensures
        r == arith_op(t@),
{
    match t {
        TokenType::Plus => Some(ArithOp::Add),
        TokenType::Minus => Some(ArithOp::Sub),
        TokenType::Star => Some(ArithOp::Mul),
        TokenType::Slash => Some(ArithOp::Div),
        _ => None,
    }
}

/// The error of a token used as what it is not.
fn misuse(t: &Token, what: &str) -> (r: RuntimeError)
    ensures
        r@ == misused(t@, what@),
{
    RuntimeError::TypeMismatch(t.lexeme.clone(), what.to_owned())
}

/// An interpreter: an environment, what has been printed, and the number of
/// passes that a loop may make.
pub struct Interpreter {
    env: Environment,
    output: Vec<RValue>,
    limit: u64,
}

impl Default for Interpreter {
    fn default() -> (r: Self)
        ensures
            r.wf(),
            r.env() == seq![ScopeView::empty()],
            r.output() == Seq::<RValueView>::empty(),
            r.limit() == u64::MAX,
    {
        Interpreter::new()
    }
}

impl Interpreter {
    /// The scopes, the innermost last.
    pub closed spec fn env(&self) -> EnvView {
        self.env@
    }

    /// What has been printed, in order.
    pub closed spec fn output(&self) -> Seq<RValueView> {
        rvalue_views(self.output@)
    }

    /// The number of passes that a loop may make.
    pub closed spec fn limit(&self) -> nat {
        self.limit as nat
    }

    /// The environment and what has been printed.
    pub open spec fn state(&self) -> State {
        State { env: self.env(), output: self.output() }
    }

    /// The environment has a scope.
    pub closed spec fn wf(&self) -> bool {
        self.env.wf()
    }

    /// An interpreter with one empty scope, nothing printed, and loops as
    /// long as a machine can count.
    pub fn new() -> (r: Self)
        ensures
            r.wf(),
            r.env() == seq![ScopeView::empty()],
            r.output() == Seq::<RValueView>::empty(),
            r.limit() == u64::MAX,
    {
        Interpreter::with_limit(u64::MAX)
    }

    /// An interpreter with one empty scope, nothing printed, and loops of
    /// `limit` passes at most.
    pub fn with_limit(limit: u64) -> (r: Self)
        ensures
            r.wf(),
            r.env() == seq![ScopeView::empty()],
            r.output() == Seq::<RValueView>::empty(),
            r.limit() == limit,
    {
        let r = Interpreter { env: Environment::new(), output: Vec::new(), limit };
        assert(r.output() =~= Seq::<RValueView>::empty());
        r
    }

    /// What has been printed, in order.
    pub fn printed(&self) -> (r: &Vec<RValue>)
        ensures
            rvalue_views(r@) == self.output(),
    {
        &self.output
    }

    /// Hands out what has been printed, and forgets it.
    pub fn take_output(&mut self) -> (r: Vec<RValue>)
        requires
            old(self).wf(),
        ensures
            final(self).wf(),
            rvalue_views(r@) == old(self).output(),
            final(self).output() == Seq::<RValueView>::empty(),
            final(self).env() == old(self).env(),
            final(self).limit() == old(self).limit(),
    {
        let mut out: Vec<RValue> = Vec::new();
        std::mem::swap(&mut out, &mut self.output);
        assert(self.output() =~= Seq::<RValueView>::empty());
        out
    }

    /// The environment.
    pub fn environment(&self) -> (r: &Environment)
        ensures
            r@ == self.env(),
            r.wf() == self.wf(),
    {
        &self.env
    }

    /// Executes `stmt`.
    pub fn evaluate(&mut self, stmt: Statement) -> (r: Result<(), RuntimeError>)
        requires
            old(self).wf(),
        ensures
            final(self).wf(),
            final(self).limit() == old(self).limit(),
            final(self).env().len() == old(self).env().len(),
            final(self).state() == exec_stmt(stmt@, old(self).state(), old(self).limit()).0,
            is_done(r, exec_stmt(stmt@, old(self).state(), old(self).limit()).1),
    {
        self.statement(&stmt)
    }

    /// Declares the name of `ident`, with the value `val` if any.
    fn var_decl(&mut self, ident: &Ident, val: Option<RValue>) -> (r: Result<(), RuntimeError>)
        requires
            old(self).wf(),
        ensures
            final(self).wf(),
            final(self).limit() == old(self).limit(),
            final(self).env().len() == old(self).env().len(),
            final(self).state() == declare(
                old(self).state(),
                old(self).env(),
                ident@.name,
                opt_view(val),
            ).0,
            is_done(
                r,
                declare(old(self).state(), old(self).env(), ident@.name, opt_view(val)).1,
            ),
    {
        self.env.new_var(ident.name().clone(), val)
    }

    /// Prints `val`.
    fn print_stmt(&mut self, val: RValue)
        requires
            old(self).wf(),
        ensures
            final(self).wf(),
            final(self).limit() == old(self).limit(),
            final(self).env() == old(self).env(),
            final(self).output() == old(self).output().push(val@),
    {
        self.output.push(val);
        assert(self.output() =~= old(self).output().push(val@));
    }

    /// Evaluates `expr` to a value, reading the name if it is one.
    fn value(&mut self, expr: &Expr) -> (r: Result<RValue, RuntimeError>)
        requires
            old(self).wf(),
        ensures
            final(self).wf(),
            final(self).output() == old(self).output(),
            final(self).limit() == old(self).limit(),
            final(self).env().len() == old(self).env().len(),
            final(self).env() == eval_value(expr@, old(self).env()).0,
            match r {
                Ok(v) => eval_value(expr@, old(self).env()).1 == Ok::<
                    RValueView,
                    RuntimeErrorView,
                >(v@),
                Err(e) => eval_value(expr@, old(self).env()).1 == Err::<
                    RValueView,
                    RuntimeErrorView,
                >(e@),
            },
        decreases expr, 1nat,
    {
        let v = self.expr(expr)?;
        v.into_rval(&self.env)
    }

    /// Evaluates `expr` to true or false.
    fn truth(&mut self, expr: &Expr) -> (r: Result<bool, RuntimeError>)
        requires
            old(self).wf(),
        ensures
            final(self).wf(),
            final(self).output() == old(self).output(),
            final(self).limit() == old(self).limit(),
            final(self).env().len() == old(self).env().len(),
            final(self).env() == eval_truth(expr@, old(self).env()).0,
            match r {
                Ok(b) => eval_truth(expr@, old(self).env()).1 == Ok::<bool, RuntimeErrorView>(b),
                Err(e) => eval_truth(expr@, old(self).env()).1 == Err::<bool, RuntimeErrorView>(
                    e@,
                ),
            },
        decreases expr, 1nat,
    {
        let v = self.expr(expr)?;
        v.into_rval(&self.env)?.is_truthy()
    }

    /// Evaluates `expr`.
    fn expr(&mut self, expr: &Expr) -> (r: Result<Value, RuntimeError>)
        requires
            old(self).wf(),
        ensures
            final(self).wf(),
            final(self).output() == old(self).output(),
            final(self).limit() == old(self).limit(),
            final(self).env().len() == old(self).env().len(),
            final(self).env() == eval(expr@, old(self).env()).0,
            is_value(r, eval(expr@, old(self).env()).1),
        decreases expr, 0nat,
    {
        match expr {
            Expr::Unary(tok, operand) => {
                let v = self.expr(&**operand)?.into_rval(&self.env)?;
                match tok.token_type {
                    TokenType::Bang => Ok(Value::R(v.not()?)),
                    TokenType::Minus => Ok(Value::R(v.neg()?)),
                    _ => Err(misuse(tok, "not a unary operator")),
                }
            },
            Expr::Binary(l, tok, r) => {
                let lhs = self.expr(&**l)?;
                let or = match tok.token_type {
                    TokenType::Or => true,
                    _ => false,
                };
                let and = match tok.token_type {
                    TokenType::And => true,
                    _ => false,
                };
                if or || and {
                    let b = lhs.as_rval(&self.env)?.is_truthy()?;
                    if b == or {
                        return Ok(Value::from_bool(b));
                    }
                    let c = self.expr(&**r)?.as_rval(&self.env)?.is_truthy()?;
                    return Ok(Value::from_bool(c));
                }
                let rhs = self.expr(&**r)?;
                match arith_op_of(&tok.token_type) {
                    None => Err(misuse(tok, "not an arithmetic operator")),
                    Some(op) => {
                        let x = lhs.as_rval(&self.env)?;
                        let y = rhs.as_rval(&self.env)?;
                        Ok(Value::R(x.arithmetic(op, &y)?))
                    },
                }
            },
            Expr::Grouping(inner) => self.expr(&**inner),
            Expr::Literal(l) => match Value::new(l.clone()) {
                Some(v) => Ok(v),
                None => Err(misuse(l, "not a value")),
            },
            Expr::Assignment(lhs, _, rhs) => {
                let val = self.expr(&**rhs)?.into_rval(&self.env)?;
                self.env.set_var(lhs.name().clone(), val)?;
                Ok(Value::L(lhs.name().clone()))
            },
        }
    }

    /// Executes `stmt`.
    fn statement(&mut self, stmt: &Statement) -> (r: Result<(), RuntimeError>)
        requires
            old(self).wf(),
        ensures
            final(self).wf(),
            final(self).limit() == old(self).limit(),
            final(self).env().len() == old(self).env().len(),
            final(self).state() == exec_stmt(stmt@, old(self).state(), old(self).limit()).0,
            is_done(r, exec_stmt(stmt@, old(self).state(), old(self).limit()).1),
        decreases stmt,
    {
        match stmt {
            Statement::Print(expr) => {
                let val = self.value(expr)?;
                self.print_stmt(val);
                Ok(())
            },
            Statement::Expr(expr) => {
                self.expr(expr)?;
                Ok(())
            },
            Statement::Var(ident, expr) => {
                let val = match expr {
                    Some(e) => Some(self.value(e)?),
                    None => None,
                };
                self.var_decl(ident, val)
            },
            Statement::Block(stmts) => {
                let ghost limit = self.limit();
                let ghost start = State {
                    env: self.env().push(ScopeView::empty()),
                    output: self.output(),
                };
                proof {
                    self.env.lemma_wf();
                }
                self.env.new_scope();
                let mut i: usize = 0;
                while i < stmts.len()
                    invariant
                        i <= stmts.len(),
                        self.wf(),
                        self.limit() == limit,
                        limit == old(self).limit(),
                        self.env().len() == old(self).env().len() + 1,
                        self.env().len() >= 2,
                        *stmt == Statement::Block(*stmts),
                        exec_block(stmt@, 0, start, limit) == exec_block(
                            stmt@,
                            i as nat,
                            self.state(),
                            limit,
                        ),
                        exec_stmt(stmt@, old(self).state(), limit) == ({
                            let (st1, r) = exec_block(stmt@, 0, start, limit);
                            (State { env: st1.env.drop_last(), output: st1.output }, r)
                        }),
                    decreases stmts.len() - i,
                {
                    match self.statement(&stmts[i]) {
                        Ok(_) => {},
                        Err(e) => {
                            self.env.end_scope();
                            return Err(e);
                        },
                    }
                    i = i + 1;
                }
                self.env.end_scope();
                Ok(())
            },
            Statement::If(cond, when_true, when_false) => {
                if self.truth(cond)? {
                    self.statement(&**when_true)
                } else {
                    match when_false {
                        Some(when_false) => self.statement(&**when_false),
                        None => Ok(()),
                    }
                }
            },
            Statement::While(cond, body) => {
                let ghost limit = self.limit();
                let mut left: u64 = self.limit;
                loop
                    invariant
                        self.wf(),
                        self.limit() == limit,
                        limit == old(self).limit(),
                        self.env().len() == old(self).env().len(),
                        *stmt == Statement::While(*cond, *body),
                        exec_stmt(stmt@, old(self).state(), limit) == exec_while(
                            stmt@,
                            self.state(),
                            left as nat,
                            limit,
                        ),
                    decreases left,
                {
                    if !self.truth(cond)? {
                        return Ok(());
                    }
                    if left == 0 {
                        return Err(RuntimeError::LoopLimit);
                    }
                    self.statement(&**body)?;
                    left = left - 1;
                }
            },
            Statement::Empty => Ok(()),
        }
    }
}

/// A loop whose condition is false at the start makes no pass: all that
/// happens is that the condition is evaluated, once.
pub proof fn lemma_while_false(cond: ExprView, body: StatementView, st: State, limit: nat)
    requires
        eval_truth(cond, st.env).1 == Ok::<bool, RuntimeErrorView>(false),
    ensures
        exec_stmt(StatementView::While(cond, Box::new(body)), st, limit) == (
            State { env: eval_truth(cond, st.env).0, output: st.output },
            Ok::<(), RuntimeErrorView>(()),
        ),
{
    let whole = StatementView::While(cond, Box::new(body));
    assert(exec_stmt(whole, st, limit) == exec_while(whole, st, limit, limit));
}

/// A loop evaluates its condition anew before every pass: after a pass
/// that went well, it goes on as a loop begun in the state that the pass
/// left, with one pass fewer to make.
pub proof fn lemma_while_pass(cond: ExprView, body: StatementView, st: State, left: nat, limit: nat)
    requires
        left > 0,
        eval_truth(cond, st.env).1 == Ok::<bool, RuntimeErrorView>(true),
        exec_stmt(body, State { env: eval_truth(cond, st.env).0, output: st.output }, limit).1
            is Ok,
    ensures
        exec_while(StatementView::While(cond, Box::new(body)), st, left, limit) == exec_while(
            StatementView::While(cond, Box::new(body)),
            exec_stmt(
                body,
                State { env: eval_truth(cond, st.env).0, output: st.output },
                limit,
            ).0,
            (left - 1) as nat,
            limit,
        ),
{
}

/// `or` and `and` evaluate their right side only where the left side does
/// not decide: where the left side of `or` is true or that of `and` false,
/// the result is that boolean and the environment is as the left side left
/// it.
pub proof fn lemma_short_circuit(l: ExprView, op: TokenView, r: ExprView, env: EnvView, b: bool)
    requires
        op.token_type is Or || op.token_type is And,
        eval_truth(l, env).1 == Ok::<bool, RuntimeErrorView>(b),
        b == (op.token_type is Or),
    ensures
        eval(ExprView::Binary(Box::new(l), op, Box::new(r)), env) == (
            eval(l, env).0,
            Ok::<ValueView, RuntimeErrorView>(boolean(b)),
        ),
{
}

/// A block leaves as many scopes as it found, and the names declared in it
/// are gone with its scope.
pub proof fn lemma_scopes_kept(stmt: StatementView, st: State, limit: nat)
    ensures
        exec_stmt(stmt, st, limit).0.env.len() == st.env.len(),
    decreases stmt, 1nat, 0nat,
{
    match stmt {
        StatementView::Empty => {},
        StatementView::Print(e) => {
            lemma_eval_scopes(e, st.env);
        },
        StatementView::Expr(e) => {
            lemma_eval_scopes(e, st.env);
        },
        StatementView::Var(ident, init) => {
            match init {
                Some(e) => {
                    lemma_eval_scopes(e, st.env);
                },
                None => {},
            }
        },
        StatementView::Block(stmts) => {
            let inner = State { env: st.env.push(ScopeView::empty()), output: st.output };
            lemma_block_scopes(stmt, 0, inner, limit);
        },
        StatementView::If(cond, then, otherwise) => {
            lemma_eval_scopes(cond, st.env);
            let st1 = State { env: eval_truth(cond, st.env).0, output: st.output };
            lemma_scopes_kept(*then, st1, limit);
            match otherwise {
                Some(s) => {
                    lemma_scopes_kept(*s, st1, limit);
                },
                None => {},
            }
        },
        StatementView::While(cond, body) => {
            lemma_while_scopes(stmt, st, limit, limit);
        },
    }
}

/// The statements of a block leave as many scopes as they found.
pub proof fn lemma_block_scopes(whole: StatementView, i: nat, st: State, limit: nat)
    ensures
        exec_block(whole, i, st, limit).0.env.len() == st.env.len(),
    decreases whole, 0nat, (if whole is Block { whole->Block_0.len() - i } else { 0 }),
{
    match whole {
        StatementView::Block(stmts) => {
            if i < stmts.len() {
                lemma_scopes_kept(stmts[i as int], st, limit);
                let (st1, r) = exec_stmt(stmts[i as int], st, limit);
                if r is Ok {
                    lemma_block_scopes(whole, i + 1, st1, limit);
                }
            }
        },
        _ => {},
    }
}

/// A loop leaves as many scopes as it found.
pub proof fn lemma_while_scopes(whole: StatementView, st: State, left: nat, limit: nat)
    ensures
        exec_while(whole, st, left, limit).0.env.len() == st.env.len(),
    decreases whole, 0nat, left,
{
    match whole {
        StatementView::While(cond, body) => {
            lemma_eval_scopes(cond, st.env);
            let st1 = State { env: eval_truth(cond, st.env).0, output: st.output };
            if eval_truth(cond, st.env).1 == Ok::<bool, RuntimeErrorView>(true) && left > 0 {
                lemma_scopes_kept(*body, st1, limit);
                let (st2, r2) = exec_stmt(*body, st1, limit);
                if r2 is Ok {
                    lemma_while_scopes(whole, st2, (left - 1) as nat, limit);
                }
            }
        },
        _ => {},
    }
}

/// Evaluating an expression opens and closes no scope.
pub proof fn lemma_eval_scopes(expr: ExprView, env: EnvView)
    ensures
        eval(expr, env).0.len() == env.len(),
        eval_value(expr, env).0.len() == env.len(),
        eval_truth(expr, env).0.len() == env.len(),
    decreases expr,
{
    match expr {
        ExprView::Literal(t) => {},
        ExprView::Grouping(e) => {
            lemma_eval_scopes(*e, env);
        },
        ExprView::Unary(op, e) => {
            lemma_eval_scopes(*e, env);
        },
        ExprView::Binary(l, op, r) => {
            lemma_eval_scopes(*l, env);
            lemma_eval_scopes(*r, eval(*l, env).0);
        },
        ExprView::Assignment(target, _, rhs) => {
            lemma_eval_scopes(*rhs, env);
            let (env1, r) = eval(*rhs, env);
            match r {
                Ok(v) => match resolved(v, env1) {
                    Ok(x) => {
                        lemma_assign_len(env1, target.name, x);
                    },
                    Err(_) => {},
                },
                Err(_) => {},
            }
        },
    }
}

} // verus!
