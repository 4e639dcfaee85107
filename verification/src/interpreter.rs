//! The evaluator: a tree-walking interpreter with a persistent variable
//! store.
//!
//! Numeric values are IEEE-754 double-precision numbers that only the host
//! of the library can compute with; the library carries them as opaque
//! 64-bit payloads (`u64` bit patterns). The evaluator owns every decision —
//! the walk order, the variable store, the factorial loop, every error — and
//! pauses whenever one primitive numeric operation is needed: it returns a
//! [`Request`], the host answers it with a [`Reply`], and the caller runs
//! the evaluation again with the reply appended. A finished evaluation
//! returns the value; the store is committed exactly when the evaluation
//! finishes (with a value or an evaluation error), so an unfinished round
//! changes nothing.
//!
//! The whole behaviour is written down by [`spec_eval`], and the evaluator
//! is proved to return exactly that.

use vstd::prelude::*;

use crate::env::Environment;
use crate::errors::{EvalError, EvalErrorModel, InterpretError, InterpretErrorModel};
use crate::parser::{spec_parse_text, spec_tree_string, PrattParser, SExpr, SExprAtom, SExprModel};

verus! {

/// One primitive numeric operation that the host is asked to perform.
/// Every `u64` is the bit pattern of one of the host's numeric values.
#[derive(Clone, Debug)]
pub enum Request {
    /// Read a numeric literal from its text.
    Literal(String),
    /// Combine two values with `+`, `-`, `*`, `/` or `^` (`^` raises the
    /// first value to the power of the second).
    Binary(char, u64, u64),
    /// Negate a value.
    Negate(u64),
    /// Truncate a value toward zero to an integer.
    Truncate(u64),
    /// The numeric value of an integer.
    IntToFloat(u64),
    /// Multiply a value by the numeric value of an integer.
    MulByInt(u64, u64),
}

/// The mathematical shape of a request.
pub enum RequestModel {
    Literal(Seq<char>),
    Binary(char, u64, u64),
    Negate(u64),
    Truncate(u64),
    IntToFloat(u64),
    MulByInt(u64, u64),
}

impl View for Request {
    type V = RequestModel;

    open spec fn view(&self) -> RequestModel {
        match self {
            Request::Literal(s) => RequestModel::Literal(s@),
            Request::Binary(c, a, b) => RequestModel::Binary(*c, *a, *b),
            Request::Negate(a) => RequestModel::Negate(*a),
            Request::Truncate(a) => RequestModel::Truncate(*a),
            Request::IntToFloat(a) => RequestModel::IntToFloat(*a),
            Request::MulByInt(a, b) => RequestModel::MulByInt(*a, *b),
        }
    }
}

/// The host's answer to one request: a value's bit pattern, or an integer
/// (for [`Request::Truncate`]).
#[derive(Clone, Copy, Debug, PartialEq, Eq, Structural)]
pub enum Reply {
    Bits(u64),
    Int(i64),
}

/// What evaluating an expression yields: a value and the store after it,
/// one request for the host, or an evaluation error. `used` counts the
/// replies consumed.
pub enum EvalOutcome {
    Done { value: u64, env: Map<Seq<char>, u64>, used: int },
    Need { req: RequestModel },
    Fail { err: EvalErrorModel, env: Map<Seq<char>, u64>, used: int },
}

/// Take the next reply, which must be a value, for the request `req`:
/// pause when no reply is left.
pub open spec fn bits_step(
    req: RequestModel,
    env: Map<Seq<char>, u64>,
    replies: Seq<Reply>,
    pos: int,
) -> EvalOutcome {
    if pos < replies.len() {
        match replies[pos] {
            Reply::Bits(v) => EvalOutcome::Done { value: v, env, used: pos + 1 },
            Reply::Int(_) => EvalOutcome::Fail {
                err: EvalErrorModel::ReplyMismatch,
                env,
                used: pos,
            },
        }
    } else {
        EvalOutcome::Need { req }
    }
}

/// The factorial product loop: multiply `acc` by each integer from `i` up
/// to `limit`, one host multiplication per step.
pub open spec fn spec_fact_loop(
    i: int,
    limit: int,
    acc: u64,
    env: Map<Seq<char>, u64>,
    replies: Seq<Reply>,
    pos: int,
) -> EvalOutcome
    decreases limit + 1 - i,
{
    if i > limit {
        EvalOutcome::Done { value: acc, env, used: pos }
    } else {
        match bits_step(RequestModel::MulByInt(acc, i as u64), env, replies, pos) {
            EvalOutcome::Done { value: v, env: e, used: p } => spec_fact_loop(
                i + 1,
                limit,
                v,
                env,
                replies,
                p,
            ),
            other => other,
        }
    }
}

/// One step of the factorial product loop.
proof fn lemma_fact_loop_step(
    i: int,
    limit: int,
    acc: u64,
    env: Map<Seq<char>, u64>,
    replies: Seq<Reply>,
    pos: int,
)
    requires
        i <= limit,
    ensures
        spec_fact_loop(i, limit, acc, env, replies, pos) == (match bits_step(
            RequestModel::MulByInt(acc, i as u64),
            env,
            replies,
            pos,
        ) {
            EvalOutcome::Done { value: v, env: e, used: p } => spec_fact_loop(
                i + 1,
                limit,
                v,
                env,
                replies,
                p,
            ),
            other => other,
        }),
{
}

/// The factorial product loop ends when the counter passes the limit.
proof fn lemma_fact_loop_done(
    i: int,
    limit: int,
    acc: u64,
    env: Map<Seq<char>, u64>,
    replies: Seq<Reply>,
    pos: int,
)
    requires
        i > limit,
    ensures
        spec_fact_loop(i, limit, acc, env, replies, pos) == (EvalOutcome::Done {
            value: acc,
            env,
            used: pos,
        }),
{
}

/// The postfix factorial of an evaluated operand: the host truncates it
/// toward zero to an integer, the product of the integers from 1 up to the
/// absolute value of that integer is computed (the empty product is 1), and
/// the original sign is re-applied.
pub open spec fn spec_factorial(
    value: u64,
    env: Map<Seq<char>, u64>,
    replies: Seq<Reply>,
    pos: int,
) -> EvalOutcome {
    if pos < replies.len() {
        match replies[pos] {
            Reply::Int(k) => {
                let limit = if k < 0 {
                    -(k as int)
                } else {
                    k as int
                };
                match bits_step(RequestModel::IntToFloat(1), env, replies, pos + 1) {
                    EvalOutcome::Done { value: acc0, env: e0, used: p2 } => {
                        match spec_fact_loop(1, limit, acc0, env, replies, p2) {
                            EvalOutcome::Done { value: prod, env: e1, used: p3 } => {
                                if k < 0 {
                                    bits_step(RequestModel::Negate(prod), env, replies, p3)
                                } else {
                                    EvalOutcome::Done { value: prod, env, used: p3 }
                                }
                            },
                            other => other,
                        }
                    },
                    other => other,
                }
            },
            Reply::Bits(_) => EvalOutcome::Fail {
                err: EvalErrorModel::ReplyMismatch,
                env,
                used: pos,
            },
        }
    } else {
        EvalOutcome::Need { req: RequestModel::Truncate(value) }
    }
}

/// What evaluating a syntax tree yields, given the store and the replies
/// received so far.
///
/// A number leaf asks the host to read its text. A variable leaf reads the
/// store, and an absent name is an error. Prefix `+` passes its operand
/// through unchanged; prefix `-` asks the host to negate it; postfix `!` is
/// the factorial. An infix operator evaluates its left operand, then its
/// right operand, then asks the host to combine the two values. `=`
/// evaluates its right operand first; its left side must be a variable leaf,
/// and the value is stored under that name and returned. Any other
/// operator/arity combination is a malformed tree.
pub open spec fn spec_eval(
    e: SExprModel,
    env: Map<Seq<char>, u64>,
    replies: Seq<Reply>,
    pos: int,
) -> EvalOutcome
    decreases e,
{
    match e {
        SExprModel::Number(text) => bits_step(RequestModel::Literal(text), env, replies, pos),
        SExprModel::Variable(name) => {
            if env.dom().contains(name) {
                EvalOutcome::Done { value: env[name], env, used: pos }
            } else {
                EvalOutcome::Fail { err: EvalErrorModel::UnboundVariable(name), env, used: pos }
            }
        },
        SExprModel::Unary(c, x) => {
            if c == '+' {
                spec_eval(*x, env, replies, pos)
            } else if c == '-' {
                match spec_eval(*x, env, replies, pos) {
                    EvalOutcome::Done { value, env: env1, used } => bits_step(
                        RequestModel::Negate(value),
                        env1,
                        replies,
                        used,
                    ),
                    other => other,
                }
            } else if c == '!' {
                match spec_eval(*x, env, replies, pos) {
                    EvalOutcome::Done { value, env: env1, used } => spec_factorial(
                        value,
                        env1,
                        replies,
                        used,
                    ),
                    other => other,
                }
            } else {
                EvalOutcome::Fail { err: EvalErrorModel::MalformedTree, env, used: pos }
            }
        },
        SExprModel::Binary(c, lhs, rhs) => {
            if c == '=' {
                match spec_eval(*rhs, env, replies, pos) {
                    EvalOutcome::Done { value, env: env1, used } => {
                        match *lhs {
                            SExprModel::Variable(name) => EvalOutcome::Done {
                                value,
                                env: env1.insert(name, value),
                                used,
                            },
                            _ => EvalOutcome::Fail {
                                err: EvalErrorModel::InvalidAssignmentTarget,
                                env: env1,
                                used,
                            },
                        }
                    },
                    other => other,
                }
            } else if c == '+' || c == '-' || c == '*' || c == '/' || c == '^' {
                match spec_eval(*lhs, env, replies, pos) {
                    EvalOutcome::Done { value: a, env: env1, used: p1 } => {
                        match spec_eval(*rhs, env1, replies, p1) {
                            EvalOutcome::Done { value: b, env: env2, used: p2 } => bits_step(
                                RequestModel::Binary(c, a, b),
                                env2,
                                replies,
                                p2,
                            ),
                            other => other,
                        }
                    },
                    other => other,
                }
            } else {
                EvalOutcome::Fail { err: EvalErrorModel::MalformedTree, env, used: pos }
            }
        },
    }
}

/// What evaluating a syntax tree has yielded so far: a value, one request
/// for the host, or an evaluation error.
pub enum EvalProgress {
    Value(u64),
    Need(Request),
    Fail(EvalError),
}

/// Evaluate the factorial of the already-evaluated operand `value`, as
/// [`spec_factorial`] says. The store is never touched here; the ghost
/// argument names it for the specification alone.
#[verifier::loop_isolation(false)]
fn eval_factorial(
    value: u64,
    replies: &Vec<Reply>,
    pos: usize,
    Ghost(em): Ghost<Map<Seq<char>, u64>>,
) -> (r: (EvalProgress, usize))
    requires
        pos <= replies@.len(),
    ensures
        r.1 <= replies@.len(),
        match spec_factorial(value, em, replies@, pos as int) {
            EvalOutcome::Done { value: v, env: e, used } => r.0 matches EvalProgress::Value(v2)
                && v2 == v && e == em && r.1 == used,
            EvalOutcome::Need { req } => r.0 matches EvalProgress::Need(q) && q@ == req && r.1
                == replies@.len(),
            EvalOutcome::Fail { err, env: e, used } => r.0 matches EvalProgress::Fail(e2) && e2@
                == err && e == em && r.1 == used,
        },
{
    if pos >= replies.len() {
        return (EvalProgress::Need(Request::Truncate(value)), pos);
    }
    let k: i64 = match replies[pos] {
        Reply::Int(k) => k,
        Reply::Bits(_) => {
            return (EvalProgress::Fail(EvalError::ReplyMismatch), pos);
        },
    };
    let limit: u64 = if k < 0 {
        proof {
            assert(-(k as i128) <= u64::MAX as i128);
        }
        (-(k as i128)) as u64
    } else {
        k as u64
    };
    proof {
        assert(limit as int == if k < 0 {
            -(k as int)
        } else {
            k as int
        });
        assert(limit <= 0x8000_0000_0000_0000u64);
    }
    // The starting accumulator: the host's value of the integer 1.
    let p2 = pos + 1;
    let (acc0, p3): (u64, usize) = if p2 < replies.len() {
        match replies[p2] {
            Reply::Bits(v) => (v, p2 + 1),
            Reply::Int(_) => {
                return (EvalProgress::Fail(EvalError::ReplyMismatch), p2);
            },
        }
    } else {
        return (EvalProgress::Need(Request::IntToFloat(1)), p2);
    };
    // The product of the integers from 1 up to `limit`.
    let mut i: u64 = 1;
    let mut acc: u64 = acc0;
    let mut p: usize = p3;
    while i <= limit
        invariant
            1 <= i <= limit + 1,
            p <= replies@.len(),
            spec_fact_loop(1, limit as int, acc0, em, replies@, p3 as int) == spec_fact_loop(
                i as int,
                limit as int,
                acc,
                em,
                replies@,
                p as int,
            ),
        decreases limit + 1 - i,
    {
        proof {
            lemma_fact_loop_step(i as int, limit as int, acc, em, replies@, p as int);
        }
        if p >= replies.len() {
            return (EvalProgress::Need(Request::MulByInt(acc, i)), p);
        }
        match replies[p] {
            Reply::Bits(v) => {
                acc = v;
                p = p + 1;
                i = i + 1;
            },
            Reply::Int(_) => {
                return (EvalProgress::Fail(EvalError::ReplyMismatch), p);
            },
        }
    }
    proof {
        lemma_fact_loop_done(i as int, limit as int, acc, em, replies@, p as int);
    }
    // Re-apply the original sign.
    if k < 0 {
        if p < replies.len() {
            match replies[p] {
                Reply::Bits(v) => (EvalProgress::Value(v), p + 1),
                Reply::Int(_) => (EvalProgress::Fail(EvalError::ReplyMismatch), p),
            }
        } else {
            (EvalProgress::Need(Request::Negate(acc)), p)
        }
    } else {
        (EvalProgress::Value(acc), p)
    }
}

/// Evaluate a syntax tree against the store `env`, as [`spec_eval`] says:
/// the result is the value, the first request that lacks a reply, or the
/// error, together with how many replies were consumed.
fn eval_expr(env: &mut Environment, expr: SExpr, replies: &Vec<Reply>, pos: usize) -> (r: (
    EvalProgress,
    usize,
))
    requires
        old(env).wf(),
        pos <= replies@.len(),
    ensures
        final(env).wf(),
        r.1 <= replies@.len(),
        match spec_eval(expr@, old(env)@, replies@, pos as int) {
            EvalOutcome::Done { value, env: em, used } => r.0 matches EvalProgress::Value(v)
                && v == value && final(env)@ == em && r.1 == used,
            EvalOutcome::Need { req } => r.0 matches EvalProgress::Need(q) && q@ == req && r.1
                == replies@.len(),
            EvalOutcome::Fail { err, env: em, used } => r.0 matches EvalProgress::Fail(e2)
                && e2@ == err && final(env)@ == em && r.1 == used,
        },
    decreases expr,
{
    match expr {
        SExpr::Atom(SExprAtom::Number(text)) => {
            if pos < replies.len() {
                match replies[pos] {
                    Reply::Bits(v) => (EvalProgress::Value(v), pos + 1),
                    Reply::Int(_) => (EvalProgress::Fail(EvalError::ReplyMismatch), pos),
                }
            } else {
                (EvalProgress::Need(Request::Literal(text)), pos)
            }
        },
        SExpr::Atom(SExprAtom::Variable(name)) => {
            match env.get(&name) {
                Some(v) => (EvalProgress::Value(v), pos),
                None => (EvalProgress::Fail(EvalError::UnboundVariable(name)), pos),
            }
        },
        SExpr::Unary(op, x) => {
            if op == '+' {
                // Prefix plus passes its operand through unchanged.
                eval_expr(env, *x, replies, pos)
            } else if op == '-' {
                let (p, p1) = eval_expr(env, *x, replies, pos);
                match p {
                    EvalProgress::Value(v) => {
                        if p1 < replies.len() {
                            match replies[p1] {
                                Reply::Bits(r2) => (EvalProgress::Value(r2), p1 + 1),
                                Reply::Int(_) => (
                                    EvalProgress::Fail(EvalError::ReplyMismatch),
                                    p1,
                                ),
                            }
                        } else {
                            (EvalProgress::Need(Request::Negate(v)), p1)
                        }
                    },
                    other => (other, p1),
                }
            } else if op == '!' {
                let (p, p1) = eval_expr(env, *x, replies, pos);
                match p {
                    EvalProgress::Value(v) => eval_factorial(v, replies, p1, Ghost(env@)),
                    other => (other, p1),
                }
            } else {
                (EvalProgress::Fail(EvalError::MalformedTree), pos)
            }
        },
        SExpr::Binary(op, lhs, rhs) => {
            if op == '=' {
                // The right side is evaluated first; only then is the left
                // side required to be a variable leaf.
                let (p, p1) = eval_expr(env, *rhs, replies, pos);
                match p {
                    EvalProgress::Value(v) => {
                        match *lhs {
                            SExpr::Atom(SExprAtom::Variable(name)) => {
                                env.set(name, v);
                                (EvalProgress::Value(v), p1)
                            },
                            _ => (EvalProgress::Fail(EvalError::InvalidAssignmentTarget), p1),
                        }
                    },
                    other => (other, p1),
                }
            } else if op == '+' || op == '-' || op == '*' || op == '/' || op == '^' {
                // Left before right, both fully evaluated.
                let (pa, p1) = eval_expr(env, *lhs, replies, pos);
                let a = match pa {
                    EvalProgress::Value(a) => a,
                    other => {
                        return (other, p1);
                    },
                };
                let (pb, p2) = eval_expr(env, *rhs, replies, p1);
                let b = match pb {
                    EvalProgress::Value(b) => b,
                    other => {
                        return (other, p2);
                    },
                };
                if p2 < replies.len() {
                    match replies[p2] {
                        Reply::Bits(r2) => (EvalProgress::Value(r2), p2 + 1),
                        Reply::Int(_) => (EvalProgress::Fail(EvalError::ReplyMismatch), p2),
                    }
                } else {
                    (EvalProgress::Need(Request::Binary(op, a, b)), p2)
                }
            } else {
                (EvalProgress::Fail(EvalError::MalformedTree), pos)
            }
        },
    }
}

/// What one whole call of [`Interpreter::interpret`] yields: a value and
/// the store after it, one request for the host, or a stage-tagged error
/// and the store after it.
pub enum RoundOutcome {
    Value { value: u64, env: Map<Seq<char>, u64> },
    Need { req: RequestModel },
    Error { err: InterpretErrorModel, env: Map<Seq<char>, u64> },
}

/// What interpreting an input text against a store yields, given the
/// replies received so far: scan, parse, then evaluate.
pub open spec fn spec_interpret(
    input: Seq<char>,
    env: Map<Seq<char>, u64>,
    replies: Seq<Reply>,
) -> RoundOutcome {
    match spec_parse_text(input) {
        Err(err) => RoundOutcome::Error { err, env },
        Ok(e) => match spec_eval(e, env, replies, 0) {
            EvalOutcome::Done { value, env: em, used } => RoundOutcome::Value { value, env: em },
            EvalOutcome::Need { req } => RoundOutcome::Need { req },
            EvalOutcome::Fail { err, env: em, used } => RoundOutcome::Error {
                err: InterpretErrorModel::Eval(err),
                env: em,
            },
        },
    }
}

/// What one call of [`Interpreter::interpret`] returned: a finished value,
/// one request that the host must answer before the evaluation can finish,
/// or a stage-tagged error.
#[derive(Debug)]
pub enum RoundResult {
    Value(u64),
    Need(Request),
    Error(InterpretError),
}

/// A tree-walking interpreter: one calculator session, whose variable store
/// persists across calls.
pub struct Interpreter {
    environment: Environment,
}

impl Interpreter {
    /// The variable store.
    pub closed spec fn env(&self) -> Map<Seq<char>, u64> {
        self.environment@
    }

    /// The store's keys are unique.
    pub closed spec fn wf(&self) -> bool {
        self.environment.wf()
    }

    /// Create a new interpreter with an empty store.
    pub fn new() -> (it: Self)
        ensures
            it.wf(),
            it.env() == Map::<Seq<char>, u64>::empty(),
    {
        Interpreter { environment: Environment::new() }
    }

    /// Interpret a program given as a string, with the host's replies so
    /// far: scan, parse, then evaluate as far as the replies carry. The
    /// store changes exactly when the evaluation finishes; a call that asks
    /// for one more reply changes nothing, and is repeated with the same
    /// replies plus the answer at the end.
    pub fn interpret(&mut self, input: &str, replies: &Vec<Reply>) -> (r: RoundResult)
        requires
            old(self).wf(),
        ensures
            final(self).wf(),
            match spec_interpret(input@, old(self).env(), replies@) {
                RoundOutcome::Value { value, env } => r matches RoundResult::Value(v) && v
                    == value && final(self).env() == env,
                RoundOutcome::Need { req } => r matches RoundResult::Need(q) && q@ == req
                    && final(self).env() == old(self).env(),
                RoundOutcome::Error { err, env } => r matches RoundResult::Error(e2) && e2@
                    == err && final(self).env() == env,
            },
    {
        let tree = match PrattParser::parse(input) {
            Ok(t) => t,
            Err(e) => {
                return RoundResult::Error(e);
            },
        };
        self.interpret_sexpr(tree, replies)
    }

    /// Evaluate a syntax tree against this session's store, as
    /// [`spec_eval`] says, committing the store exactly when the
    /// evaluation finishes.
    pub fn interpret_sexpr(&mut self, expr: SExpr, replies: &Vec<Reply>) -> (r: RoundResult)
        requires
            old(self).wf(),
        ensures
            final(self).wf(),
            match spec_eval(expr@, old(self).env(), replies@, 0) {
                EvalOutcome::Done { value, env, used } => r matches RoundResult::Value(v) && v
                    == value && final(self).env() == env,
                EvalOutcome::Need { req } => r matches RoundResult::Need(q) && q@ == req
                    && final(self).env() == old(self).env(),
                EvalOutcome::Fail { err, env, used } => r matches RoundResult::Error(e2) && (
                e2@ matches InterpretErrorModel::Eval(e3) && e3 == err) && final(self).env()
                    == env,
            },
    {
        let mut scratch = self.environment.snapshot();
        let (p, _used) = eval_expr(&mut scratch, expr, replies, 0);
        match p {
            EvalProgress::Value(v) => {
                self.environment = scratch;
                RoundResult::Value(v)
            },
            EvalProgress::Need(q) => RoundResult::Need(q),
            EvalProgress::Fail(e) => {
                self.environment = scratch;
                RoundResult::Error(InterpretError::Eval(e))
            },
        }
    }
}

/// Parse a program given as a string and write its syntax tree in the
/// canonical parenthesized form, without evaluating it.
pub fn interpret_to_tree_string(input: &str) -> (r: Result<String, InterpretError>)
    ensures
        match spec_parse_text(input@) {
            Ok(e) => r matches Ok(s) && s@ == spec_tree_string(e),
            Err(err) => r matches Err(e2) && e2@ == err,
        },
{
    match PrattParser::parse(input) {
        Ok(t) => Ok(t.to_tree_string()),
        Err(e) => Err(e),
    }
}

} // verus!
