//! The postfix stack machine that reduces a compiled expression against one
//! assignment to a single truth value.

use crate::state::{bitof, State};
use crate::token::{Token, TokenModel, Tokens};
use crate::Error;
use vstd::prelude::*;

verus! {

/// One step of the stack machine: push values, apply operators to the top of
/// the stack. `None` marks a malformed program: an operator short of operands,
/// or a parenthesis, which must never appear in a compiled program.
pub open spec fn step(stack: Seq<bool>, t: TokenModel, n: u64) -> Option<Seq<bool>> {
    match t {
        TokenModel::Lit(b) => Some(stack.push(b)),
        TokenModel::Var(_, idx) => Some(stack.push(bitof(n, idx))),
        TokenModel::Not => if stack.len() >= 1 {
            Some(stack.drop_last().push(!stack.last()))
        } else {
            None
        },
        TokenModel::And => binary_step(stack, |a: bool, b: bool| a && b),
        TokenModel::Xor => binary_step(stack, |a: bool, b: bool| a != b),
        TokenModel::Or => binary_step(stack, |a: bool, b: bool| a || b),
        TokenModel::Implication => binary_step(stack, |a: bool, b: bool| !a || b),
        TokenModel::Equality => binary_step(stack, |a: bool, b: bool| a == b),
        TokenModel::LParen => None,
        TokenModel::RParen => None,
    }
}

/// Apply a binary operator: the second-popped operand is the left-hand side,
/// the first-popped the right-hand side.
pub open spec fn binary_step(stack: Seq<bool>, op: spec_fn(bool, bool) -> bool) -> Option<
    Seq<bool>,
> {
    if stack.len() >= 2 {
        let b = stack.last();
        let a = stack.drop_last().last();
        Some(stack.drop_last().drop_last().push(op(a, b)))
    } else {
        None
    }
}

/// Run the whole program over an initial stack, against assignment `n`.
pub open spec fn run(toks: Seq<TokenModel>, n: u64, stack: Seq<bool>) -> Option<Seq<bool>>
    decreases toks.len(),
{
    if toks.len() == 0 {
        Some(stack)
    } else {
        match step(stack, toks[0], n) {
            Some(stack2) => run(toks.skip(1), n, stack2),
            None => None,
        }
    }
}

/// What a compiled program denotes at assignment `n`: the single value left on
/// the stack, or nothing when the program is malformed — an operator
/// underflows, a parenthesis survives, or the run leaves any number of values
/// other than one.
pub open spec fn eval_model(toks: Seq<TokenModel>, n: u64) -> Option<bool> {
    match run(toks, n, Seq::empty()) {
        Some(stack) => if stack.len() == 1 {
            Some(stack[0])
        } else {
            None
        },
        None => None,
    }
}

/// Whether a compiled program evaluates cleanly. By
/// [`lemma_defect_is_value_independent`] this does not depend on the
/// assignment probed, so assignment zero stands for them all.
pub open spec fn runs_clean(toks: Seq<TokenModel>) -> bool {
    eval_model(toks, 0) is Some
}

/// Whether one machine step succeeds, and the height it leaves, depend only on
/// the token and the stack's height, never on the values in play.
proof fn lemma_step_height(s1: Seq<bool>, s2: Seq<bool>, t: TokenModel, n1: u64, n2: u64)
    requires
        s1.len() == s2.len(),
    ensures
        step(s1, t, n1) is Some <==> step(s2, t, n2) is Some,
        step(s1, t, n1) matches Some(r1) ==> (step(s2, t, n2) matches Some(r2) && r1.len()
            == r2.len()),
{
}

/// Whether a run fails, and the height it ends at, depend only on the program
/// and the starting height: the assignment can change the values on the stack
/// but never its shape.
proof fn lemma_run_height(toks: Seq<TokenModel>, s1: Seq<bool>, s2: Seq<bool>, n1: u64, n2: u64)
    requires
        s1.len() == s2.len(),
    ensures
        run(toks, n1, s1) is Some <==> run(toks, n2, s2) is Some,
        run(toks, n1, s1) matches Some(r1) ==> (run(toks, n2, s2) matches Some(r2) && r1.len()
            == r2.len()),
    decreases toks.len(),
{
    if toks.len() > 0 {
        lemma_step_height(s1, s2, toks[0], n1, n2);
        match (step(s1, toks[0], n1), step(s2, toks[0], n2)) {
            (Some(r1), Some(r2)) => {
                lemma_run_height(toks.skip(1), r1, r2, n1, n2);
            },
            _ => {},
        }
    }
}

/// A defect is a property of the program alone: either every assignment
/// evaluates to a value, or none does.
pub proof fn lemma_defect_is_value_independent(toks: Seq<TokenModel>, n: u64)
    ensures
        eval_model(toks, n) is Some <==> runs_clean(toks),
{
    lemma_run_height(toks, Seq::empty(), Seq::empty(), n, 0);
}

impl Tokens {
    /// Reduce this postfix program against one assignment. Reports
    /// `EvaluationDefect` exactly when the program is malformed: that marks a
    /// parser defect, never a property of the assignment.
    pub fn eval(&self, state: &State) -> (r: Result<bool, Error>)
        requires
            self.wf(),
            state.inv(),
            self.spec_vars().len() <= state.spec_var_count(),
        ensures
            match eval_model(self.spec_tokens(), state.spec_vars()) {
                Some(b) => r == Ok::<bool, Error>(b),
                None => r == Err::<bool, Error>(Error::EvaluationDefect),
            },
    {
        let ghost toks = self.spec_tokens();
        let ghost n = state.spec_vars();
        let mut stack: Vec<bool> = Vec::new();
        let len = self.len();
        let mut i: usize = 0;
        proof {
            assert(toks.skip(0) =~= toks);
        }
        while i < len
            invariant
                len == toks.len(),
                0 <= i <= len,
                self.wf(),
                state.inv(),
                self.spec_vars().len() <= state.spec_var_count(),
                toks == self.spec_tokens(),
                n == state.spec_vars(),
                run(toks, n, Seq::empty()) == run(toks.skip(i as int), n, stack@),
            decreases len - i,
        {
            let ghost prev = stack@;
            match self.token_at(i) {
                Token::Literal(b) => {
                    stack.push(*b);
                },
                Token::Var(_, idx) => {
                    let v = state.var_at(*idx);
                    stack.push(v);
                },
                Token::Not => {
                    match stack.pop() {
                        Some(v) => stack.push(!v),
                        None => {
                            return Err(Error::EvaluationDefect);
                        },
                    }
                },
                Token::And => {
                    match (stack.pop(), stack.pop()) {
                        (Some(b), Some(a)) => stack.push(a && b),
                        _ => {
                            return Err(Error::EvaluationDefect);
                        },
                    }
                },
                Token::Xor => {
                    match (stack.pop(), stack.pop()) {
                        (Some(b), Some(a)) => stack.push(a != b),
                        _ => {
                            return Err(Error::EvaluationDefect);
                        },
                    }
                },
                Token::Or => {
                    match (stack.pop(), stack.pop()) {
                        (Some(b), Some(a)) => stack.push(a || b),
                        _ => {
                            return Err(Error::EvaluationDefect);
                        },
                    }
                },
                Token::Implication => {
                    match (stack.pop(), stack.pop()) {
                        (Some(b), Some(a)) => stack.push(!a || b),
                        _ => {
                            return Err(Error::EvaluationDefect);
                        },
                    }
                },
                Token::Equality => {
                    match (stack.pop(), stack.pop()) {
                        (Some(b), Some(a)) => stack.push(a == b),
                        _ => {
                            return Err(Error::EvaluationDefect);
                        },
                    }
                },
                Token::LParen => {
                    return Err(Error::EvaluationDefect);
                },
                Token::RParen => {
                    return Err(Error::EvaluationDefect);
                },
            }
            proof {
                let t = toks[i as int];
                assert(step(prev, t, n) is Some);
                assert(step(prev, t, n).unwrap() =~= stack@);
                assert(toks.skip(i as int).skip(1) =~= toks.skip(i as int + 1));
            }
            i = i + 1;
        }
        proof {
            assert(toks.skip(len as int) =~= Seq::<TokenModel>::empty());
        }
        if stack.len() == 1 {
            Ok(stack[0])
        } else {
            Err(Error::EvaluationDefect)
        }
    }
}

} // verus!
