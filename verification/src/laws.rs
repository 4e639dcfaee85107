//! Laws of the calculator, stated and proved over the specification
//! functions that the executable pipeline is verified against.

use vstd::prelude::*;

use crate::errors::EvalErrorModel;
use crate::interpreter::{
    bits_step, spec_eval, spec_fact_loop, spec_factorial, spec_interpret, EvalOutcome, Reply,
    RequestModel, RoundOutcome,
};
use crate::lexer::{number_end, spec_digit, spec_lex, TokenModel};
use crate::parser::{spec_parse, spec_parse_loop, tok_at, ParseStep, SExprModel};

verus! {

proof fn lemma_fact_loop_used_bounded(
    i: int,
    limit: int,
    acc: u64,
    env: Map<Seq<char>, u64>,
    replies: Seq<Reply>,
    pos: int,
)
    requires
        0 <= pos <= replies.len(),
    ensures
        spec_fact_loop(i, limit, acc, env, replies, pos) matches EvalOutcome::Done {
            used,
            ..
        } ==> pos <= used <= replies.len(),
        spec_fact_loop(i, limit, acc, env, replies, pos) matches EvalOutcome::Fail {
            used,
            ..
        } ==> pos <= used <= replies.len(),
    decreases limit + 1 - i,
{
    if i <= limit && pos < replies.len() && replies[pos] is Bits {
        lemma_fact_loop_used_bounded(i + 1, limit, replies[pos]->Bits_0, env, replies, pos + 1);
    }
}

proof fn lemma_factorial_used_bounded(
    value: u64,
    env: Map<Seq<char>, u64>,
    replies: Seq<Reply>,
    pos: int,
)
    requires
        0 <= pos <= replies.len(),
    ensures
        spec_factorial(value, env, replies, pos) matches EvalOutcome::Done { used, .. } ==> pos
            <= used <= replies.len(),
        spec_factorial(value, env, replies, pos) matches EvalOutcome::Fail { used, .. } ==> pos
            <= used <= replies.len(),
{
    if pos < replies.len() {
        match replies[pos] {
            Reply::Int(k) => {
                let limit = if k < 0 {
                    -(k as int)
                } else {
                    k as int
                };
                match bits_step(RequestModel::IntToFloat(1), env, replies, pos + 1) {
                    EvalOutcome::Done { value: acc0, used: p2, .. } => {
                        lemma_fact_loop_used_bounded(1, limit, acc0, env, replies, p2);
                    },
                    _ => {},
                }
            },
            Reply::Bits(_) => {},
        }
    }
}

/// An evaluation consumes replies in order: a finished one has consumed a
/// count between its starting position and what was available.
pub proof fn lemma_eval_used_bounded(
    e: SExprModel,
    env: Map<Seq<char>, u64>,
    replies: Seq<Reply>,
    pos: int,
)
    requires
        0 <= pos <= replies.len(),
    ensures
        spec_eval(e, env, replies, pos) matches EvalOutcome::Done { used, .. } ==> pos <= used
            <= replies.len(),
        spec_eval(e, env, replies, pos) matches EvalOutcome::Fail { used, .. } ==> pos <= used
            <= replies.len(),
    decreases e,
{
    match e {
        SExprModel::Number(_) => {},
        SExprModel::Variable(_) => {},
        SExprModel::Unary(c, x) => {
            lemma_eval_used_bounded(*x, env, replies, pos);
            if c == '!' {
                match spec_eval(*x, env, replies, pos) {
                    EvalOutcome::Done { value, env: env1, used } => {
                        lemma_factorial_used_bounded(value, env1, replies, used);
                    },
                    _ => {},
                }
            }
        },
        SExprModel::Binary(c, lhs, rhs) => {
            if c == '=' {
                lemma_eval_used_bounded(*rhs, env, replies, pos);
            } else {
                lemma_eval_used_bounded(*lhs, env, replies, pos);
                match spec_eval(*lhs, env, replies, pos) {
                    EvalOutcome::Done { value: a, env: env1, used: p1 } => {
                        lemma_eval_used_bounded(*rhs, env1, replies, p1);
                    },
                    _ => {},
                }
            }
        },
    }
}

proof fn lemma_fact_loop_stable(
    i: int,
    limit: int,
    acc: u64,
    env: Map<Seq<char>, u64>,
    replies: Seq<Reply>,
    more: Seq<Reply>,
    pos: int,
)
    requires
        replies.is_prefix_of(more),
        0 <= pos <= replies.len(),
    ensures
        !(spec_fact_loop(i, limit, acc, env, replies, pos) is Need) ==> spec_fact_loop(
            i,
            limit,
            acc,
            env,
            more,
            pos,
        ) == spec_fact_loop(i, limit, acc, env, replies, pos),
    decreases limit + 1 - i,
{
    if i <= limit && pos < replies.len() {
        assert(more[pos] == replies[pos]);
        if replies[pos] is Bits {
            lemma_fact_loop_stable(
                i + 1,
                limit,
                replies[pos]->Bits_0,
                env,
                replies,
                more,
                pos + 1,
            );
        }
    }
}

proof fn lemma_factorial_stable(
    value: u64,
    env: Map<Seq<char>, u64>,
    replies: Seq<Reply>,
    more: Seq<Reply>,
    pos: int,
)
    requires
        replies.is_prefix_of(more),
        0 <= pos <= replies.len(),
    ensures
        !(spec_factorial(value, env, replies, pos) is Need) ==> spec_factorial(
            value,
            env,
            more,
            pos,
        ) == spec_factorial(value, env, replies, pos),
{
    if pos < replies.len() {
        assert(more[pos] == replies[pos]);
        match replies[pos] {
            Reply::Int(k) => {
                let limit = if k < 0 {
                    -(k as int)
                } else {
                    k as int
                };
                if pos + 1 < replies.len() {
                    assert(more[pos + 1] == replies[pos + 1]);
                }
                match bits_step(RequestModel::IntToFloat(1), env, replies, pos + 1) {
                    EvalOutcome::Done { value: acc0, used: p2, .. } => {
                        lemma_fact_loop_stable(1, limit, acc0, env, replies, more, p2);
                        lemma_fact_loop_used_bounded(1, limit, acc0, env, replies, p2);
                        match spec_fact_loop(1, limit, acc0, env, replies, p2) {
                            EvalOutcome::Done { value: prod, used: p3, .. } => {
                                if k < 0 && p3 < replies.len() {
                                    assert(more[p3] == replies[p3]);
                                }
                            },
                            _ => {},
                        }
                    },
                    _ => {},
                }
            },
            Reply::Bits(_) => {},
        }
    }
}

/// The replies already consumed settle a finished evaluation: appending
/// further replies never changes a finished value or error, nor the store it
/// produced. The repeated rounds of one interpretation therefore agree: the
/// round that finishes returns what any later round would.
pub proof fn lemma_eval_stable(
    e: SExprModel,
    env: Map<Seq<char>, u64>,
    replies: Seq<Reply>,
    more: Seq<Reply>,
    pos: int,
)
    requires
        replies.is_prefix_of(more),
        0 <= pos <= replies.len(),
    ensures
        !(spec_eval(e, env, replies, pos) is Need) ==> spec_eval(e, env, more, pos) == spec_eval(
            e,
            env,
            replies,
            pos,
        ),
    decreases e,
{
    match e {
        SExprModel::Number(_) => {
            if pos < replies.len() {
                assert(more[pos] == replies[pos]);
            }
        },
        SExprModel::Variable(_) => {},
        SExprModel::Unary(c, x) => {
            lemma_eval_stable(*x, env, replies, more, pos);
            lemma_eval_used_bounded(*x, env, replies, pos);
            match spec_eval(*x, env, replies, pos) {
                EvalOutcome::Done { value, env: env1, used } => {
                    if c == '-' && used < replies.len() {
                        assert(more[used] == replies[used]);
                    }
                    if c == '!' {
                        lemma_factorial_stable(value, env1, replies, more, used);
                    }
                },
                _ => {},
            }
        },
        SExprModel::Binary(c, lhs, rhs) => {
            if c == '=' {
                lemma_eval_stable(*rhs, env, replies, more, pos);
            } else {
                lemma_eval_stable(*lhs, env, replies, more, pos);
                lemma_eval_used_bounded(*lhs, env, replies, pos);
                match spec_eval(*lhs, env, replies, pos) {
                    EvalOutcome::Done { value: a, env: env1, used: p1 } => {
                        lemma_eval_stable(*rhs, env1, replies, more, p1);
                        lemma_eval_used_bounded(*rhs, env1, replies, p1);
                        match spec_eval(*rhs, env1, replies, p1) {
                            EvalOutcome::Done { value: b, env: env2, used: p2 } => {
                                if p2 < replies.len() {
                                    assert(more[p2] == replies[p2]);
                                }
                            },
                            _ => {},
                        }
                    },
                    _ => {},
                }
            }
        },
    }
}

/// A finished round is settled: a round of [`crate::Interpreter::interpret`]
/// that returned a value or an error returns the same one however many
/// replies are appended afterward.
pub proof fn lemma_round_stable(
    input: Seq<char>,
    env: Map<Seq<char>, u64>,
    replies: Seq<Reply>,
    more: Seq<Reply>,
)
    requires
        replies.is_prefix_of(more),
    ensures
        !(spec_interpret(input, env, replies) is Need) ==> spec_interpret(input, env, more)
            == spec_interpret(input, env, replies),
{
    match crate::parser::spec_parse_text(input) {
        Ok(e) => {
            lemma_eval_stable(e, env, replies, more, 0);
        },
        Err(_) => {},
    }
}

/// Reading a variable that the store does not hold fails with the
/// unbound-variable error — never a default value — and neither the store
/// nor the replies are touched.
pub proof fn lemma_unbound_variable_fails(
    name: Seq<char>,
    env: Map<Seq<char>, u64>,
    replies: Seq<Reply>,
    pos: int,
)
    requires
        !env.dom().contains(name),
    ensures
        spec_eval(SExprModel::Variable(name), env, replies, pos) == (EvalOutcome::Fail {
            err: EvalErrorModel::UnboundVariable(name),
            env,
            used: pos,
        }),
{
}

/// Reading a variable that the store holds yields exactly its last-assigned
/// value and changes nothing.
pub proof fn lemma_variable_reads_store(
    name: Seq<char>,
    env: Map<Seq<char>, u64>,
    replies: Seq<Reply>,
    pos: int,
)
    requires
        env.dom().contains(name),
    ensures
        spec_eval(SExprModel::Variable(name), env, replies, pos) == (EvalOutcome::Done {
            value: env[name],
            env,
            used: pos,
        }),
{
}

/// An assignment that finishes always leaves its value in the store under
/// the assigned name: evaluating the variable against the store that the
/// assignment produced yields that same value. Since the session commits
/// exactly the produced store, the assignment persists across later calls
/// on the same session.
pub proof fn lemma_assignment_persists(
    lhs: SExprModel,
    rhs: SExprModel,
    env: Map<Seq<char>, u64>,
    replies: Seq<Reply>,
    pos: int,
)
    ensures
        spec_eval(
            SExprModel::Binary('=', Box::new(lhs), Box::new(rhs)),
            env,
            replies,
            pos,
        ) matches EvalOutcome::Done { value, env: env2, used } ==> lhs
            matches SExprModel::Variable(name) && env2.dom().contains(name) && env2[name] == value
            && spec_eval(SExprModel::Variable(name), env2, replies, used) == (EvalOutcome::Done {
            value,
            env: env2,
            used,
        }),
{
    match spec_eval(SExprModel::Binary('=', Box::new(lhs), Box::new(rhs)), env, replies, pos) {
        EvalOutcome::Done { value, env: env2, used } => {
            match spec_eval(rhs, env, replies, pos) {
                EvalOutcome::Done { value: v1, env: env1, used: u1 } => {
                    match lhs {
                        SExprModel::Variable(name) => {
                            assert(env2 == env1.insert(name, v1));
                        },
                        _ => {
                            assert(false);
                        },
                    }
                },
                _ => {
                    assert(false);
                },
            }
        },
        _ => {},
    }
}

/// The shape of a plain numeric literal: a digit first, then digits and at
/// most one decimal point.
pub open spec fn is_numeric_literal(s: Seq<char>) -> bool {
    &&& s.len() >= 1
    &&& spec_digit(s[0])
    &&& forall|k: int| 0 <= k < s.len() ==> spec_digit(s[k]) || s[k] == '.'
    &&& forall|k: int, l: int|
        0 <= k < s.len() && 0 <= l < s.len() && s[k] == '.' && s[l] == '.' ==> k == l
}

proof fn lemma_number_scan_all(s: Seq<char>, i: int, seen: bool)
    requires
        0 <= i <= s.len(),
        forall|k: int| i <= k < s.len() ==> spec_digit(s[k]) || s[k] == '.',
        forall|k: int, l: int|
            i <= k < s.len() && i <= l < s.len() && s[k] == '.' && s[l] == '.' ==> k == l,
        seen ==> forall|k: int| i <= k < s.len() ==> s[k] != '.',
    ensures
        number_end(s, i, seen) == Some(s.len() as int),
    decreases s.len() - i,
{
    if i < s.len() {
        if spec_digit(s[i]) {
            lemma_number_scan_all(s, i + 1, seen);
        } else {
            assert(s[i] == '.');
            assert(!seen);
            assert(forall|k: int| i + 1 <= k < s.len() ==> s[k] != '.');
            lemma_number_scan_all(s, i + 1, true);
        }
    }
}

/// Scanning a plain numeric literal yields one number token holding exactly
/// the literal's text, and the end-of-input token.
pub proof fn lemma_literal_scan(s: Seq<char>)
    requires
        is_numeric_literal(s),
    ensures
        spec_lex(s) == Ok::<Seq<TokenModel>, crate::errors::LexError>(
            seq![TokenModel::Number(s), TokenModel::End],
        ),
{
    lemma_number_scan_all(s, 1, false);
    assert(s.subrange(0, s.len() as int) =~= s);
    assert(seq![TokenModel::Number(s)] + seq![TokenModel::End] =~= seq![
        TokenModel::Number(s),
        TokenModel::End,
    ]);
    let c = s[0];
    assert(spec_digit(c));
    assert(!crate::lexer::spec_op_char(c));
    assert(!crate::lexer::spec_name_start(c));
    assert(number_end(s, 1, false) == Some(s.len() as int));
    assert(crate::lexer::spec_lex_from(s, s.len() as int) == Ok::<
        Seq<TokenModel>,
        crate::errors::LexError,
    >(seq![TokenModel::End]));
    assert(spec_lex(s) == Ok::<Seq<TokenModel>, crate::errors::LexError>(
        seq![TokenModel::Number(s)] + seq![TokenModel::End],
    ));
}

/// Parsing the tokens of a plain numeric literal yields its leaf.
pub proof fn lemma_literal_parse(s: Seq<char>)
    ensures
        spec_parse(seq![TokenModel::Number(s), TokenModel::End], 0, 0) == ParseStep::Parsed(
            SExprModel::Number(s),
            1,
        ),
{
    let ts = seq![TokenModel::Number(s), TokenModel::End];
    assert(tok_at(ts, 0) == TokenModel::Number(s));
    assert(tok_at(ts, 1) == TokenModel::End);
    assert(spec_parse_loop(ts, 1, 0, SExprModel::Number(s)) == ParseStep::Parsed(
        SExprModel::Number(s),
        1,
    ));
}

/// A program that is one plain numeric literal evaluates to exactly the
/// host's reading of the literal's full text: the library issues one
/// literal request carrying that text, returns the host's reply unchanged,
/// and leaves the store unchanged. What number the host reads from the text
/// is the host's own affair; everything else of the round trip is fixed
/// here.
pub proof fn lemma_literal_round_trip(input: Seq<char>, env: Map<Seq<char>, u64>, v: u64)
    requires
        is_numeric_literal(input),
    ensures
        spec_interpret(input, env, seq![Reply::Bits(v)]) == (RoundOutcome::Value { value: v, env }),
        spec_interpret(input, env, Seq::<Reply>::empty()) == (RoundOutcome::Need {
            req: RequestModel::Literal(input),
        }),
{
    lemma_literal_scan(input);
    lemma_literal_parse(input);
    let e = SExprModel::Number(input);
    assert(spec_eval(e, env, seq![Reply::Bits(v)], 0) == bits_step(
        RequestModel::Literal(input),
        env,
        seq![Reply::Bits(v)],
        0,
    ));
    assert(seq![Reply::Bits(v)][0] == Reply::Bits(v));
    assert(spec_eval(e, env, Seq::<Reply>::empty(), 0) == bits_step(
        RequestModel::Literal(input),
        env,
        Seq::<Reply>::empty(),
        0,
    ));
}

} // verus!
