//! The tree-walking interpreter, with its variable environment and output.
use vstd::prelude::*;
use crate::ast::{Ast, SpecAst};
use crate::environment::Environment;
use crate::token::Op;

verus! {

/// A fault during evaluation.
#[derive(Clone, Copy, Debug, PartialEq, Eq, Structural)]
pub enum RuntimeError {
    DivisionByZero,
    /// A result outside the range of `i64`.
    Overflow,
    /// A lookup of a name that was never assigned.
    UndefinedVariable,
    /// A loop that ran more iterations than the interpreter allows.
    IterationLimit,
}

/// What evaluation reads and changes: the variables, and the values emitted
/// so far, in order.
pub struct EvalState {
    pub env: Map<Seq<char>, i64>,
    pub out: Seq<i64>,
}

pub type EResult = Result<(i64, EvalState), RuntimeError>;

pub open spec fn height(e: SpecAst) -> nat
    decreases e,
{
    match e {
        SpecAst::BinOp { op, left, right } => 1 + max(height(*left), height(*right)),
        SpecAst::Num(_) => 0,
        SpecAst::IfThenElse { condition, then_branch, else_branch } => 1 + max(
            height(*condition),
            max(height(*then_branch), height(*else_branch)),
        ),
        SpecAst::KeywordPrint(e) => 1 + height(*e),
        SpecAst::WhileLoop { condition, body } => 1 + max(height(*condition), height(*body)),
        SpecAst::Identifier(_) => 0,
        SpecAst::Assignment { identifier, value } => 1 + height(*value),
    }
}

pub open spec fn max(a: nat, b: nat) -> nat {
    if a >= b {
        a
    } else {
        b
    }
}

pub open spec fn abs(a: int) -> int {
    if a < 0 {
        -a
    } else {
        a
    }
}

/// Integer division rounded toward zero.
pub open spec fn trunc_div(a: int, b: int) -> int {
    let q = abs(a) / abs(b);
    if (a < 0) == (b < 0) {
        q
    } else {
        -q
    }
}

pub open spec fn in_range(v: int) -> bool {
    i64::MIN <= v <= i64::MAX
}

pub open spec fn checked(v: int) -> Result<i64, RuntimeError> {
    if in_range(v) {
        Ok(v as i64)
    } else {
        Err(RuntimeError::Overflow)
    }
}

/// The value of `a op b`: comparisons give 1 or 0.
pub open spec fn apply_op(op: Op, a: i64, b: i64) -> Result<i64, RuntimeError> {
    match op {
        Op::Add => checked(a + b),
        Op::Sub => checked(a - b),
        Op::Mul => checked(a * b),
        Op::Div => if b == 0 {
            Err(RuntimeError::DivisionByZero)
        } else {
            checked(trunc_div(a as int, b as int))
        },
        Op::Gt => Ok(if a > b { 1 } else { 0 }),
        Op::Lt => Ok(if a < b { 1 } else { 0 }),
    }
}

pub open spec fn emit(st: EvalState, v: i64) -> EvalState {
    EvalState { env: st.env, out: st.out.push(v) }
}

/// The value of `e` from state `st`, and the state after it; each loop may
/// run its body at most `limit` times.
pub open spec fn eval_spec(e: SpecAst, st: EvalState, limit: nat) -> EResult
    decreases 2 * height(e), 0nat,
{
    match e {
        SpecAst::Num(v) => Ok((v, st)),
        SpecAst::BinOp { op, left, right } => match eval_spec(*left, st, limit) {
            Ok((a, st1)) => match eval_spec(*right, st1, limit) {
                Ok((b, st2)) => match apply_op(op, a, b) {
                    Ok(v) => Ok((v, st2)),
                    Err(x) => Err(x),
                },
                Err(x) => Err(x),
            },
            Err(x) => Err(x),
        },
        SpecAst::IfThenElse { condition, then_branch, else_branch } => match eval_spec(
            *condition,
            st,
            limit,
        ) {
            Ok((c, st1)) => if c != 0 {
                eval_spec(*then_branch, st1, limit)
            } else {
                eval_spec(*else_branch, st1, limit)
            },
            Err(x) => Err(x),
        },
        SpecAst::KeywordPrint(inner) => match eval_spec(*inner, st, limit) {
            Ok((v, st1)) => Ok((v, emit(st1, v))),
            Err(x) => Err(x),
        },
        SpecAst::WhileLoop { condition, body } => eval_loop(*condition, *body, st, limit, limit),
        SpecAst::Identifier(name) => if st.env.contains_key(name) {
            Ok((st.env[name], st))
        } else {
            Err(RuntimeError::UndefinedVariable)
        },
        SpecAst::Assignment { identifier, value } => match eval_spec(*value, st, limit) {
            Ok((v, st1)) => Ok((v, EvalState { env: st1.env.insert(identifier, v), out: st1.out })),
            Err(x) => Err(x),
        },
    }
}

/// A loop with `k` iterations left: while `condition` is non-zero, evaluate
/// `body` and emit its value; the loop's own value is 1.
pub open spec fn eval_loop(
    condition: SpecAst,
    body: SpecAst,
    st: EvalState,
    limit: nat,
    k: nat,
) -> EResult
    decreases 2 * max(height(condition), height(body)) + 1, k,
{
    match eval_spec(condition, st, limit) {
        Ok((c, st1)) => if c == 0 {
            Ok((1, st1))
        } else if k == 0 {
            Err(RuntimeError::IterationLimit)
        } else {
            match eval_spec(body, st1, limit) {
                Ok((b, st2)) => eval_loop(condition, body, emit(st2, b), limit, (k - 1) as nat),
                Err(x) => Err(x),
            }
        },
        Err(x) => Err(x),
    }
}

/// Evaluating an assignment and then the same name, against the state the
/// assignment left, gives the assigned value and changes nothing more.
pub proof fn law_assignment_then_lookup(
    name: Seq<char>,
    value: SpecAst,
    st: EvalState,
    limit: nat,
)
    ensures
        eval_spec(SpecAst::Assignment { identifier: name, value: Box::new(value) }, st, limit) is Ok
            ==> {
            let (v, st1) = eval_spec(
                SpecAst::Assignment { identifier: name, value: Box::new(value) },
                st,
                limit,
            )->Ok_0;
            eval_spec(SpecAst::Identifier(name), st1, limit) == Ok::<(i64, EvalState), RuntimeError>((v, st1))
        },
{
}

/// Looking up a name that holds no value is a fault.
pub proof fn law_unassigned_lookup_faults(name: Seq<char>, st: EvalState, limit: nat)
    requires
        !st.env.contains_key(name),
    ensures
        eval_spec(SpecAst::Identifier(name), st, limit) == Err::<(i64, EvalState), RuntimeError>(
            RuntimeError::UndefinedVariable,
        ),
{
}

/// A loop whose condition is 0 at the start never evaluates its body: its
/// value is 1, and the state is the one the condition left.
pub proof fn law_while_false_skips_body(
    condition: SpecAst,
    body: SpecAst,
    st: EvalState,
    limit: nat,
)
    requires
        eval_spec(condition, st, limit) is Ok,
        eval_spec(condition, st, limit)->Ok_0.0 == 0,
    ensures
        eval_spec(SpecAst::WhileLoop { condition: Box::new(condition), body: Box::new(body) }, st, limit)
            == Ok::<(i64, EvalState), RuntimeError>((1, eval_spec(condition, st, limit)->Ok_0.1)),
{
    let w = SpecAst::WhileLoop { condition: Box::new(condition), body: Box::new(body) };
    assert(eval_spec(w, st, limit) == eval_loop(condition, body, st, limit, limit));
}

/// Whether no node of `e` is an assignment.
pub open spec fn no_assignment(e: SpecAst) -> bool
    decreases e,
{
    match e {
        SpecAst::BinOp { op, left, right } => no_assignment(*left) && no_assignment(*right),
        SpecAst::Num(_) => true,
        SpecAst::IfThenElse { condition, then_branch, else_branch } => no_assignment(*condition)
            && no_assignment(*then_branch) && no_assignment(*else_branch),
        SpecAst::KeywordPrint(e) => no_assignment(*e),
        SpecAst::WhileLoop { condition, body } => no_assignment(*condition) && no_assignment(*body),
        SpecAst::Identifier(_) => true,
        SpecAst::Assignment { .. } => false,
    }
}

/// `r` with `out` emitted before everything it emitted.
pub open spec fn after_output(r: EResult, out: Seq<i64>) -> EResult {
    match r {
        Ok((v, s)) => Ok((v, EvalState { env: s.env, out: out + s.out })),
        Err(x) => Err(x),
    }
}

pub open spec fn keeps_env(r: EResult, env: Map<Seq<char>, i64>) -> bool {
    r is Ok ==> r->Ok_0.1.env == env
}

pub open spec fn fresh(env: Map<Seq<char>, i64>) -> EvalState {
    EvalState { env, out: Seq::empty() }
}

proof fn lemma_after_output_twice(r: EResult, a: Seq<i64>, b: Seq<i64>)
    ensures
        after_output(after_output(r, a), b) == after_output(r, b + a),
{
    if r is Ok {
        assert(b + (a + r->Ok_0.1.out) =~= (b + a) + r->Ok_0.1.out);
    }
}

proof fn lemma_output_independent(e: SpecAst, env: Map<Seq<char>, i64>, out: Seq<i64>, limit: nat)
    requires
        no_assignment(e),
    ensures
        eval_spec(e, EvalState { env, out }, limit) == after_output(eval_spec(e, fresh(env), limit), out),
        keeps_env(eval_spec(e, fresh(env), limit), env),
    decreases 2 * height(e), 0nat,
{
    let st = EvalState { env, out };
    assert(out + Seq::<i64>::empty() =~= out);
    match e {
        SpecAst::Num(_) => {},
        SpecAst::Identifier(_) => {},
        SpecAst::Assignment { .. } => {},
        SpecAst::BinOp { op, left, right } => {
            lemma_output_independent(*left, env, out, limit);
            lemma_output_independent(*left, env, Seq::empty(), limit);
            let rl = eval_spec(*left, fresh(env), limit);
            if rl is Ok {
                let w1 = rl->Ok_0.1.out;
                assert(rl->Ok_0.1 == EvalState { env, out: w1 });
                lemma_output_independent(*right, env, out + w1, limit);
                lemma_output_independent(*right, env, w1, limit);
                let rr = eval_spec(*right, fresh(env), limit);
                lemma_after_output_twice(rr, w1, out);
            }
        },
        SpecAst::IfThenElse { condition, then_branch, else_branch } => {
            lemma_output_independent(*condition, env, out, limit);
            let rc = eval_spec(*condition, fresh(env), limit);
            if rc is Ok {
                let w1 = rc->Ok_0.1.out;
                assert(rc->Ok_0.1 == EvalState { env, out: w1 });
                lemma_output_independent(*then_branch, env, out + w1, limit);
                lemma_output_independent(*then_branch, env, w1, limit);
                lemma_output_independent(*else_branch, env, out + w1, limit);
                lemma_output_independent(*else_branch, env, w1, limit);
                lemma_after_output_twice(eval_spec(*then_branch, fresh(env), limit), w1, out);
                lemma_after_output_twice(eval_spec(*else_branch, fresh(env), limit), w1, out);
            }
        },
        SpecAst::KeywordPrint(inner) => {
            lemma_output_independent(*inner, env, out, limit);
            let ri = eval_spec(*inner, fresh(env), limit);
            if ri is Ok {
                assert((out + ri->Ok_0.1.out).push(ri->Ok_0.0) =~= out + ri->Ok_0.1.out.push(
                    ri->Ok_0.0,
                ));
            }
        },
        SpecAst::WhileLoop { condition, body } => {
            lemma_loop_output_independent(*condition, *body, env, out, limit, limit);
        },
    }
}

proof fn lemma_loop_output_independent(
    condition: SpecAst,
    body: SpecAst,
    env: Map<Seq<char>, i64>,
    out: Seq<i64>,
    limit: nat,
    k: nat,
)
    requires
        no_assignment(condition),
        no_assignment(body),
    ensures
        eval_loop(condition, body, EvalState { env, out }, limit, k) == after_output(
            eval_loop(condition, body, fresh(env), limit, k),
            out,
        ),
        keeps_env(eval_loop(condition, body, fresh(env), limit, k), env),
    decreases 2 * max(height(condition), height(body)) + 1, k,
{
    assert(out + Seq::<i64>::empty() =~= out);
    lemma_output_independent(condition, env, out, limit);
    let rc = eval_spec(condition, fresh(env), limit);
    if rc is Ok && rc->Ok_0.0 != 0 && k > 0 {
        let w1 = rc->Ok_0.1.out;
        assert(rc->Ok_0.1 == EvalState { env, out: w1 });
        lemma_output_independent(body, env, out + w1, limit);
        lemma_output_independent(body, env, w1, limit);
        let rb = eval_spec(body, fresh(env), limit);
        if rb is Ok {
            let w2 = rb->Ok_0.1.out;
            let bv = rb->Ok_0.0;
            let w = (w1 + w2).push(bv);
            assert(((out + w1) + w2).push(bv) =~= out + w);
            lemma_loop_output_independent(condition, body, env, out + w, limit, (k - 1) as nat);
            lemma_loop_output_independent(condition, body, env, w, limit, (k - 1) as nat);
            let rest = eval_loop(condition, body, fresh(env), limit, (k - 1) as nat);
            lemma_after_output_twice(rest, w, out);
        }
    }
}

/// Evaluation without assignments is repeatable: it leaves the variables as
/// they were, and what it returns and emits does not depend on what was
/// emitted before. So evaluating the same tree again, against the variables
/// it started from (a fresh environment, say), gives the same value and
/// emits the same values again.
pub proof fn law_evaluation_repeatable(e: SpecAst, st: EvalState, limit: nat)
    requires
        no_assignment(e),
    ensures
        eval_spec(e, st, limit) == after_output(eval_spec(e, fresh(st.env), limit), st.out),
        eval_spec(e, st, limit) is Ok ==> {
            let (v, st1) = eval_spec(e, st, limit)->Ok_0;
            &&& st1.env == st.env
            &&& eval_spec(e, st1, limit) is Ok
            &&& eval_spec(e, st1, limit)->Ok_0.0 == v
        },
{
    lemma_output_independent(e, st.env, st.out, limit);
    if eval_spec(e, st, limit) is Ok {
        let st1 = eval_spec(e, st, limit)->Ok_0.1;
        lemma_output_independent(e, st.env, st1.out, limit);
        assert(st1 == EvalState { env: st.env, out: st1.out });
    }
}

/// An evaluator over an environment of variables, collecting the values
/// emitted so far.
pub struct Interpreter {
    environment: Environment,
    output: Vec<i64>,
    iteration_limit: u64,
}

impl Interpreter {
    pub closed spec fn wf(&self) -> bool {
        self.environment.wf()
    }

    pub closed spec fn state(&self) -> EvalState {
        EvalState { env: self.environment@, out: self.output@ }
    }

    /// How many times one loop may run its body.
    pub closed spec fn limit(&self) -> nat {
        self.iteration_limit as nat
    }

    /// An interpreter over `environment`, with no output yet, whose loops may
    /// run `limit` iterations each.
    pub fn with_environment(environment: Environment, limit: u64) -> (r: Interpreter)
        requires
            environment.wf(),
        ensures
            r.wf(),
            r.state() == (EvalState { env: environment@, out: Seq::empty() }),
            r.limit() == limit,
    {
        Interpreter { environment, output: Vec::new(), iteration_limit: limit }
    }

    /// An interpreter with no variables and no output, whose loops may run
    /// `limit` iterations each.
    pub fn with_iteration_limit(limit: u64) -> (r: Interpreter)
        ensures
            r.wf(),
            r.state() == (EvalState { env: Map::empty(), out: Seq::empty() }),
            r.limit() == limit,
    {
        Interpreter::with_environment(Environment::new(), limit)
    }

    /// An interpreter with no variables and no output, whose loops may run
    /// up to `u64::MAX` iterations each.
    pub fn new() -> (r: Interpreter)
        ensures
            r.wf(),
            r.state() == (EvalState { env: Map::empty(), out: Seq::empty() }),
            r.limit() == u64::MAX,
    {
        Interpreter::with_iteration_limit(u64::MAX)
    }

    /// The values emitted so far, oldest first.
    pub fn output(&self) -> (r: &Vec<i64>)
        ensures
            r@ == self.state().out,
    {
        &self.output
    }

    /// The values emitted, oldest first, giving the interpreter up.
    pub fn into_output(self) -> (r: Vec<i64>)
        ensures
            r@ == self.state().out,
    {
        self.output
    }

    /// The environment, giving the interpreter up.
    pub fn into_environment(self) -> (r: Environment)
        requires
            self.wf(),
        ensures
            r.wf(),
            r@ == self.state().env,
    {
        self.environment
    }

    /// The value bound to `name`, if any.
    pub fn lookup(&self, name: &String) -> (r: Option<i64>)
        requires
            self.wf(),
        ensures
            r == (if self.state().env.contains_key(name@) {
                Some(self.state().env[name@])
            } else {
                None
            }),
    {
        self.environment.lookup(name)
    }

    /// Evaluates `node`, depth first and left before right.
    pub fn eval(&mut self, node: &Ast) -> (r: Result<i64, RuntimeError>)
        requires
            old(self).wf(),
        ensures
            final(self).wf(),
            final(self).limit() == old(self).limit(),
            match eval_spec(node@, old(self).state(), old(self).limit()) {
                Ok((v, st)) => r == Ok::<i64, RuntimeError>(v) && final(self).state() == st,
                Err(e) => r == Err::<i64, RuntimeError>(e),
            },
        decreases height(node@),
    {
        match node {
            Ast::Num(v) => Ok(*v),
            Ast::BinOp { op, left, right } => {
                let a = match self.eval(left) {
                    Ok(a) => a,
                    Err(e) => return Err(e),
                };
                let b = match self.eval(right) {
                    Ok(b) => b,
                    Err(e) => return Err(e),
                };
                let v = match op {
                    Op::Add => a.checked_add(b),
                    Op::Sub => a.checked_sub(b),
                    Op::Mul => a.checked_mul(b),
                    Op::Div => {
                        if b == 0 {
                            return Err(RuntimeError::DivisionByZero);
                        }
                        a.checked_div(b)
                    },
                    Op::Gt => Some(if a > b { 1i64 } else { 0i64 }),
                    Op::Lt => Some(if a < b { 1i64 } else { 0i64 }),
                };
                match v {
                    Some(v) => Ok(v),
                    None => Err(RuntimeError::Overflow),
                }
            },
            Ast::IfThenElse { condition, then_branch, else_branch } => {
                let c = match self.eval(condition) {
                    Ok(c) => c,
                    Err(e) => return Err(e),
                };
                if c != 0 {
                    self.eval(then_branch)
                } else {
                    self.eval(else_branch)
                }
            },
            Ast::KeywordPrint(inner) => {
                let v = match self.eval(inner) {
                    Ok(v) => v,
                    Err(e) => return Err(e),
                };
                let ghost before = *self;
                self.output.push(v);
                proof {
                    assert(self.environment == before.environment);
                }
                Ok(v)
            },
            Ast::Identifier(name) => match self.environment.lookup(name) {
                Some(v) => Ok(v),
                None => Err(RuntimeError::UndefinedVariable),
            },
            Ast::Assignment { identifier, value } => {
                let v = match self.eval(value) {
                    Ok(v) => v,
                    Err(e) => return Err(e),
                };
                self.environment.assign(identifier, v);
                Ok(v)
            },
            Ast::WhileLoop { condition, body } => {
                let ghost c = (**condition)@;
                let ghost b = (**body)@;
                let ghost lim = self.limit();
                let mut k: u64 = self.iteration_limit;
                loop
                    invariant
                        self.wf(),
                        self.limit() == lim,
                        lim == old(self).limit(),
                        node@ == (SpecAst::WhileLoop { condition: Box::new(c), body: Box::new(b) }),
                        c == (**condition)@,
                        b == (**body)@,
                        eval_loop(c, b, self.state(), lim, k as nat) == eval_spec(
                            node@,
                            old(self).state(),
                            lim,
                        ),
                    decreases k,
                {
                    let cv = match self.eval(condition) {
                        Ok(v) => v,
                        Err(e) => return Err(e),
                    };
                    if cv == 0 {
                        return Ok(1);
                    }
                    if k == 0 {
                        return Err(RuntimeError::IterationLimit);
                    }
                    let bv = match self.eval(body) {
                        Ok(v) => v,
                        Err(e) => return Err(e),
                    };
                    let ghost before = *self;
                    self.output.push(bv);
                    proof {
                        assert(self.environment == before.environment);
                    }
                    k = k - 1;
                }
            },
        }
    }
}

} // verus!
