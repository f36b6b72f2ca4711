//! Parallel counterparts of the tester's queries: the same results, computed
//! by fanning the assignment range out over rayon's worker pool.

use crate::evaluator::{eval_model, lemma_defect_is_value_independent, runs_clean};
use crate::state::State;
use crate::tester::{all_false, all_true, failure_upto, success_upto, vars_of, Tester};
use crate::token::TokenModel;
use crate::Error;
use rayon::iter::IntoParallelIterator;
use rayon::iter::ParallelIterator;
use vstd::arithmetic::power2::pow2;
use vstd::prelude::*;

verus! {

/// What evaluating at `n` reports: the value the program denotes there, or
/// `EvaluationDefect` when it denotes none.
pub open spec fn eval_outcome(toks: Seq<TokenModel>, n: u64, res: Result<bool, Error>) -> bool {
    match eval_model(toks, n) {
        Some(b) => res == Ok::<bool, Error>(b),
        None => res == Err::<bool, Error>(Error::EvaluationDefect),
    }
}

impl Tester {
    /// Whether the expression's value at assignment `n` differs from
    /// `expected` — evaluating to no value at all counts as differing.
    pub fn eval_differs_at(&self, n: u64, expected: bool) -> (r: bool)
        requires
            self.inv(),
        ensures
            r == (eval_model(self.spec_tokens(), n) != Some(expected)),
    {
        match self.eval_at(n) {
            Ok(b) => b != expected,
            Err(_) => true,
        }
    }
}

/// Relies on rayon's `ParallelIterator::any` over the range `0..max`: it
/// returns whether the predicate holds of some element, stopping early once
/// one is found. The predicate is the verified [`Tester::eval_differs_at`],
/// whose contract determines its result from `n` alone.
#[verifier::external_body]
fn par_differs(t: &Tester, max: u64, expected: bool) -> (r: bool)
    requires
        t.inv(),
    ensures
        r == (exists|n: u64|
            n < max && #[trigger] eval_model(t.spec_tokens(), n) != Some(expected)),
{
    (0..max).into_par_iter().any(|n| t.eval_differs_at(n, expected))
}

/// Relies on rayon's `map` and `collect` over the range `0..max`: collecting
/// a parallel iterator into a `Vec` yields the items in the iterator's order
/// — rayon either writes each split's items into that split's own index range
/// or concatenates the per-split lists in split order — and each item here is
/// the result of the verified [`Tester::eval_at`], whose contract determines
/// it from `n` alone.
#[verifier::external_body]
fn par_eval_collect(t: &Tester, max: u64) -> (r: Vec<Result<bool, Error>>)
    requires
        t.inv(),
    ensures
        r@.len() == max,
        forall|j: int| 0 <= j < r@.len() ==> eval_outcome(t.spec_tokens(), j as u64, r@[j]),
{
    (0..max).into_par_iter().map(|n| t.eval_at(n)).collect()
}

impl Tester {
    /// Evaluate the expression at every assignment in parallel: the same
    /// (state, value) sequence as [`Tester::eval`], computed across rayon's
    /// worker pool. A malformed program aborts the whole query with
    /// `EvaluationDefect`.
    #[verifier::loop_isolation(false)]
    pub fn eval_par(&self) -> (r: Result<Vec<(State, bool)>, Error>)
        requires
            self.inv(),
        ensures
            runs_clean(self.spec_tokens()) ==> (r matches Ok(v) && v@.len() == pow2(
                self.spec_var_count(),
            ) && forall|j: int|
                0 <= j < v@.len() ==> ((#[trigger] v@[j]).0.inv() && v@[j].0.spec_vars() == j
                    && v@[j].0.spec_var_count() == self.spec_var_count() && Some(v@[j].1)
                    == eval_model(self.spec_tokens(), j as u64))),
            !runs_clean(self.spec_tokens()) ==> r == Err::<Vec<(State, bool)>, Error>(
                Error::EvaluationDefect,
            ),
    {
        let ghost toks = self.spec_tokens();
        let max = self.max_iter();
        let base = match State::default(self.var_count()) {
            Ok(s) => s,
            Err(_) => {
                proof {
                    self.lemma_inv();
                    assert(false);
                }
                return Err(Error::EvaluationDefect);
            },
        };
        let outcomes = par_eval_collect(self, max);
        let olen = outcomes.len();
        proof {
            assert(olen == max);
        }
        let mut v: Vec<(State, bool)> = Vec::new();
        let mut i: u64 = 0;
        while i < max
            invariant
                0 <= i <= max,
                v@.len() == i,
                i > 0 ==> runs_clean(toks),
                forall|j: int|
                    0 <= j < v@.len() ==> ((#[trigger] v@[j]).0.inv() && v@[j].0.spec_vars() == j
                        && v@[j].0.spec_var_count() == self.spec_var_count() && Some(v@[j].1)
                        == eval_model(toks, j as u64)),
            decreases max - i,
        {
            match outcomes[i as usize] {
                Ok(b) => {
                    v.push((base.iterate(i), b));
                    proof {
                        lemma_defect_is_value_independent(toks, i);
                    }
                },
                Err(e) => {
                    proof {
                        lemma_defect_is_value_independent(toks, i);
                    }
                    return Err(e);
                },
            }
            i = i + 1;
        }
        proof {
            vstd::arithmetic::power2::lemma_pow2_pos(self.spec_var_count());
        }
        Ok(v)
    }

    /// The successes of [`Tester::successes`], computed in parallel.
    #[verifier::loop_isolation(false)]
    pub fn successes_par(&self) -> (r: Result<Vec<State>, Error>)
        requires
            self.inv(),
        ensures
            runs_clean(self.spec_tokens()) ==> (r matches Ok(v) && vars_of(v@) == success_upto(
                self.spec_tokens(),
                pow2(self.spec_var_count()),
            ) && forall|j: int|
                0 <= j < v@.len() ==> (#[trigger] v@[j]).inv() && v@[j].spec_var_count()
                    == self.spec_var_count()),
            !runs_clean(self.spec_tokens()) ==> r == Err::<Vec<State>, Error>(
                Error::EvaluationDefect,
            ),
    {
        let ghost toks = self.spec_tokens();
        let max = self.max_iter();
        let base = match State::default(self.var_count()) {
            Ok(s) => s,
            Err(_) => {
                proof {
                    self.lemma_inv();
                    assert(false);
                }
                return Err(Error::EvaluationDefect);
            },
        };
        let outcomes = par_eval_collect(self, max);
        let olen = outcomes.len();
        proof {
            assert(olen == max);
        }
        let mut v: Vec<State> = Vec::new();
        let mut i: u64 = 0;
        proof {
            assert(vars_of(v@) =~= success_upto(toks, 0));
        }
        while i < max
            invariant
                0 <= i <= max,
                vars_of(v@) =~= success_upto(toks, i as nat),
                i > 0 ==> runs_clean(toks),
                forall|j: int|
                    0 <= j < v@.len() ==> (#[trigger] v@[j]).inv() && v@[j].spec_var_count()
                        == self.spec_var_count(),
            decreases max - i,
        {
            match outcomes[i as usize] {
                Ok(b) => {
                    proof {
                        lemma_defect_is_value_independent(toks, i);
                    }
                    if b {
                        v.push(base.iterate(i));
                        proof {
                            assert(vars_of(v@) =~= vars_of(v@.drop_last()).push(i));
                        }
                    }
                },
                Err(e) => {
                    proof {
                        lemma_defect_is_value_independent(toks, i);
                    }
                    return Err(e);
                },
            }
            i = i + 1;
        }
        proof {
            vstd::arithmetic::power2::lemma_pow2_pos(self.spec_var_count());
        }
        Ok(v)
    }

    /// The failures of [`Tester::failures`], computed in parallel.
    #[verifier::loop_isolation(false)]
    pub fn failures_par(&self) -> (r: Result<Vec<State>, Error>)
        requires
            self.inv(),
        ensures
            runs_clean(self.spec_tokens()) ==> (r matches Ok(v) && vars_of(v@) == failure_upto(
                self.spec_tokens(),
                pow2(self.spec_var_count()),
            ) && forall|j: int|
                0 <= j < v@.len() ==> (#[trigger] v@[j]).inv() && v@[j].spec_var_count()
                    == self.spec_var_count()),
            !runs_clean(self.spec_tokens()) ==> r == Err::<Vec<State>, Error>(
                Error::EvaluationDefect,
            ),
    {
        let ghost toks = self.spec_tokens();
        let max = self.max_iter();
        let base = match State::default(self.var_count()) {
            Ok(s) => s,
            Err(_) => {
                proof {
                    self.lemma_inv();
                    assert(false);
                }
                return Err(Error::EvaluationDefect);
            },
        };
        let outcomes = par_eval_collect(self, max);
        let olen = outcomes.len();
        proof {
            assert(olen == max);
        }
        let mut v: Vec<State> = Vec::new();
        let mut i: u64 = 0;
        proof {
            assert(vars_of(v@) =~= failure_upto(toks, 0));
        }
        while i < max
            invariant
                0 <= i <= max,
                vars_of(v@) =~= failure_upto(toks, i as nat),
                i > 0 ==> runs_clean(toks),
                forall|j: int|
                    0 <= j < v@.len() ==> (#[trigger] v@[j]).inv() && v@[j].spec_var_count()
                        == self.spec_var_count(),
            decreases max - i,
        {
            match outcomes[i as usize] {
                Ok(b) => {
                    proof {
                        lemma_defect_is_value_independent(toks, i);
                    }
                    if !b {
                        v.push(base.iterate(i));
                        proof {
                            assert(vars_of(v@) =~= vars_of(v@.drop_last()).push(i));
                        }
                    }
                },
                Err(e) => {
                    proof {
                        lemma_defect_is_value_independent(toks, i);
                    }
                    return Err(e);
                },
            }
            i = i + 1;
        }
        proof {
            vstd::arithmetic::power2::lemma_pow2_pos(self.spec_var_count());
        }
        Ok(v)
    }

    /// Whether the expression is a tautology, decided in parallel with early
    /// cancellation once any counterexample turns up.
    pub fn is_true_par(&self) -> (r: Result<bool, Error>)
        requires
            self.inv(),
        ensures
            runs_clean(self.spec_tokens()) ==> r == Ok::<bool, Error>(
                all_true(self.spec_tokens(), pow2(self.spec_var_count())),
            ),
            !runs_clean(self.spec_tokens()) ==> r == Err::<bool, Error>(Error::EvaluationDefect),
    {
        let ghost toks = self.spec_tokens();
        let max = self.max_iter();
        match self.eval_at(0) {
            Err(e) => {
                proof {
                    lemma_defect_is_value_independent(toks, 0);
                }
                Err(e)
            },
            Ok(_) => {
                let differs = par_differs(self, max, true);
                proof {
                    assert forall|n: u64| eval_model(toks, n) is Some by {
                        lemma_defect_is_value_independent(toks, n);
                    }
                }
                Ok(!differs)
            },
        }
    }

    /// Whether the expression is a contradiction, decided in parallel with
    /// early cancellation once any satisfying assignment turns up.
    pub fn is_false_par(&self) -> (r: Result<bool, Error>)
        requires
            self.inv(),
        ensures
            runs_clean(self.spec_tokens()) ==> r == Ok::<bool, Error>(
                all_false(self.spec_tokens(), pow2(self.spec_var_count())),
            ),
            !runs_clean(self.spec_tokens()) ==> r == Err::<bool, Error>(Error::EvaluationDefect),
    {
        let ghost toks = self.spec_tokens();
        let max = self.max_iter();
        match self.eval_at(0) {
            Err(e) => {
                proof {
                    lemma_defect_is_value_independent(toks, 0);
                }
                Err(e)
            },
            Ok(_) => {
                let differs = par_differs(self, max, false);
                proof {
                    assert forall|n: u64| eval_model(toks, n) is Some by {
                        lemma_defect_is_value_independent(toks, n);
                    }
                }
                Ok(!differs)
            },
        }
    }
}

} // verus!
