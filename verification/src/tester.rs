//! The tester: exhaustive enumeration of every assignment of an expression's
//! variables, with success, failure and tautology queries.

use crate::evaluator::{eval_model, lemma_defect_is_value_independent, runs_clean};
use crate::lexer::lex_rest;
use crate::literals::{default_model, TokenLiterals};
use crate::parser::{sy, Parser};
use crate::state::{State, STATE_BITS};
use crate::token::{names_model, toks_ok, TokenModel, Tokens};
use crate::Error;
use vstd::arithmetic::power2::pow2;
use vstd::prelude::*;

verus! {

/// Whether the expression evaluates true at every assignment below `count`.
pub open spec fn all_true(toks: Seq<TokenModel>, count: nat) -> bool {
    forall|n: u64| (n as nat) < count ==> eval_model(toks, n) == Some(true)
}

/// Whether the expression evaluates false at every assignment below `count`.
pub open spec fn all_false(toks: Seq<TokenModel>, count: nat) -> bool {
    forall|n: u64| (n as nat) < count ==> eval_model(toks, n) == Some(false)
}

/// The assignments below `k` at which the expression evaluates true, in
/// increasing order.
pub open spec fn success_upto(toks: Seq<TokenModel>, k: nat) -> Seq<u64>
    decreases k,
{
    if k == 0 {
        Seq::empty()
    } else {
        let p = success_upto(toks, (k - 1) as nat);
        if eval_model(toks, ((k - 1) as nat) as u64) == Some(true) {
            p.push(((k - 1) as nat) as u64)
        } else {
            p
        }
    }
}

/// The assignments below `k` at which the expression evaluates false, in
/// increasing order.
pub open spec fn failure_upto(toks: Seq<TokenModel>, k: nat) -> Seq<u64>
    decreases k,
{
    if k == 0 {
        Seq::empty()
    } else {
        let p = failure_upto(toks, (k - 1) as nat);
        if eval_model(toks, ((k - 1) as nat) as u64) == Some(false) {
            p.push(((k - 1) as nat) as u64)
        } else {
            p
        }
    }
}

/// The packed assignments of a list of states.
pub open spec fn vars_of(states: Seq<State>) -> Seq<u64> {
    states.map_values(|s: State| s.spec_vars())
}

/// The truth table of expressions over the spellings and variable count of
/// one compiled boolean expression: the four-call surface of the engine.
#[derive(Debug)]
pub struct Tester {
    expr: Tokens,
    var_count: usize,
}

impl Tester {
    /// The compiled postfix program under test.
    pub closed spec fn spec_tokens(&self) -> Seq<TokenModel> {
        self.expr.spec_tokens()
    }

    /// The expression's variable names, by order of first appearance.
    pub closed spec fn spec_vars(&self) -> Seq<Seq<char>> {
        self.expr.spec_vars()
    }

    /// The expression's variable count.
    pub closed spec fn spec_var_count(&self) -> nat {
        self.var_count as nat
    }

    /// Well-formedness: the count matches the variable table, every variable
    /// fits the packed state, and the program's variable tokens point into
    /// the table.
    pub closed spec fn inv(&self) -> bool {
        &&& self.expr.wf()
        &&& self.var_count == self.expr.spec_vars().len()
        &&& self.var_count < STATE_BITS
    }

    /// What well-formedness guarantees of the visible model.
    pub proof fn lemma_inv(&self)
        requires
            self.inv(),
        ensures
            self.spec_var_count() == self.spec_vars().len(),
            self.spec_var_count() < STATE_BITS,
            toks_ok(self.spec_tokens(), self.spec_vars()),
    {
    }

    /// Wrap a compiled expression, or report `CapacityError` when its
    /// variables cannot be packed into one state.
    pub fn with_tokens(expr: Tokens) -> (r: Result<Tester, Error>)
        requires
            expr.wf(),
        ensures
            expr.spec_vars().len() < STATE_BITS ==> (r matches Ok(t) && t.inv() && t.spec_tokens()
                == expr.spec_tokens() && t.spec_vars() == expr.spec_vars()),
            expr.spec_vars().len() >= STATE_BITS ==> r == Err::<Tester, Error>(
                Error::CapacityError,
            ),
    {
        let var_count = expr.var_count();
        if var_count >= STATE_BITS {
            Err(Error::CapacityError)
        } else {
            Ok(Tester { expr, var_count })
        }
    }

    /// Parse an expression with the default token spellings into a tester.
    /// Fails with `MismatchedParenthesis` when the parentheses do not
    /// balance, and with `CapacityError` when the expression has too many
    /// variables to enumerate.
    pub fn parse(inp: &str) -> (r: Result<Tester, Error>)
        ensures
            match sy(lex_rest(default_model(), inp@, Seq::empty()).0) {
                None => r == Err::<Tester, Error>(Error::MismatchedParenthesis),
                Some(program) => {
                    let table = lex_rest(default_model(), inp@, Seq::empty()).1;
                    if table.len() < STATE_BITS {
                        r matches Ok(t) && t.inv() && t.spec_tokens() == program && t.spec_vars()
                            == table
                    } else {
                        r == Err::<Tester, Error>(Error::CapacityError)
                    }
                },
            },
    {
        match Parser::parse(inp).shunting_yard() {
            Ok(tk) => Self::with_tokens(tk),
            Err(e) => Err(e),
        }
    }

    /// Parse an expression with the given token spellings into a tester; the
    /// same errors as [`Tester::parse`].
    pub fn parse_with_literals(inp: &str, literals: TokenLiterals) -> (r: Result<Tester, Error>)
        requires
            literals@.wf(),
        ensures
            match sy(lex_rest(literals@, inp@, Seq::empty()).0) {
                None => r == Err::<Tester, Error>(Error::MismatchedParenthesis),
                Some(program) => {
                    let table = lex_rest(literals@, inp@, Seq::empty()).1;
                    if table.len() < STATE_BITS {
                        r matches Ok(t) && t.inv() && t.spec_tokens() == program && t.spec_vars()
                            == table
                    } else {
                        r == Err::<Tester, Error>(Error::CapacityError)
                    }
                },
            },
    {
        match Parser::parse_with_literals(inp, literals).shunting_yard() {
            Ok(tk) => Self::with_tokens(tk),
            Err(e) => Err(e),
        }
    }

    /// The number of variables in the expression.
    pub fn var_count(&self) -> (r: usize)
        ensures
            r == self.spec_var_count(),
    {
        self.var_count
    }

    /// The number of assignments enumeration visits.
    pub fn max_iter(&self) -> (r: u64)
        requires
            self.inv(),
        ensures
            r == pow2(self.spec_var_count()),
    {
        proof {
            crate::state::lemma_shift_is_pow2(self.spec_var_count());
        }
        1u64 << (self.var_count as u64)
    }

    /// All the variable names, ordered by first occurrence.
    pub fn vars(&self) -> (r: &Vec<String>)
        ensures
            names_model(r@) == self.spec_vars(),
    {
        self.expr.vars()
    }

    /// The name of variable `n` together with its value under `s`.
    pub fn var_at<'a>(&'a self, s: &State, n: usize) -> (r: (&'a String, bool))
        requires
            self.inv(),
            s.inv(),
            n < self.spec_var_count(),
            n < s.spec_var_count(),
        ensures
            r.0@ == self.spec_vars()[n as int],
            r.1 == crate::state::bitof(s.spec_vars(), n as nat),
    {
        (self.expr.var_at(n), s.var_at(n))
    }

    /// The values of all the expression's variables under `s`, aligned with
    /// [`Tester::vars`].
    pub fn var_vals(&self, s: &State) -> (r: Vec<bool>)
        requires
            self.inv(),
            s.inv(),
            self.spec_var_count() <= s.spec_var_count(),
        ensures
            r@.len() == self.spec_var_count(),
            forall|i: int|
                0 <= i < r@.len() ==> r@[i] == crate::state::bitof(s.spec_vars(), i as nat),
    {
        let mut r: Vec<bool> = Vec::new();
        let mut i: usize = 0;
        while i < self.var_count
            invariant
                0 <= i <= self.var_count,
                self.inv(),
                s.inv(),
                self.spec_var_count() <= s.spec_var_count(),
                r@.len() == i,
                forall|j: int|
                    0 <= j < i ==> r@[j] == crate::state::bitof(s.spec_vars(), j as nat),
            decreases self.var_count - i,
        {
            r.push(s.var_at(i));
            i = i + 1;
        }
        r
    }

    /// Evaluate the expression at the assignment whose packed bits equal `n`.
    pub fn eval_at(&self, n: u64) -> (r: Result<bool, Error>)
        requires
            self.inv(),
        ensures
            match eval_model(self.spec_tokens(), n) {
                Some(b) => r == Ok::<bool, Error>(b),
                None => r == Err::<bool, Error>(Error::EvaluationDefect),
            },
    {
        let base = match State::default(self.var_count) {
            Ok(s) => s,
            Err(_) => {
                proof {
                    assert(false);
                }
                return Err(Error::EvaluationDefect);
            },
        };
        let st = base.iterate(n);
        self.expr.eval(&st)
    }

    /// Evaluate the expression at every assignment, in increasing counting
    /// order: the assignment whose packed bits equal `i` stands at index `i`,
    /// so every state below two to the variable count appears exactly once.
    /// A malformed program aborts the whole query with `EvaluationDefect`.
    #[verifier::loop_isolation(false)]
    pub fn eval(&self) -> (r: Result<Vec<(State, bool)>, Error>)
        requires
            self.inv(),
        ensures
            runs_clean(self.spec_tokens()) ==> (r matches Ok(v) && v@.len() == pow2(
                self.spec_var_count(),
            ) && forall|j: int|
                0 <= j < v@.len() ==> ((#[trigger] v@[j]).0.inv() && v@[j].0.spec_vars() == j
                    && v@[j].0.spec_var_count() == self.spec_var_count() && Some(v@[j].1)
                    == eval_model(self.spec_tokens(), j as u64))),
            !runs_clean(self.spec_tokens()) ==> r == Err::<Vec<(State, bool)>, Error>(
                Error::EvaluationDefect,
            ),
    {
        let ghost toks = self.spec_tokens();
        let max = self.max_iter();
        let base = match State::default(self.var_count) {
            Ok(s) => s,
            Err(_) => {
                proof {
                    assert(false);
                }
                return Err(Error::EvaluationDefect);
            },
        };
        let mut v: Vec<(State, bool)> = Vec::new();
        let mut i: u64 = 0;
        while i < max
            invariant
                0 <= i <= max,
                v@.len() == i,
                i > 0 ==> runs_clean(toks),
                forall|j: int|
                    0 <= j < v@.len() ==> ((#[trigger] v@[j]).0.inv() && v@[j].0.spec_vars() == j
                        && v@[j].0.spec_var_count() == self.spec_var_count() && Some(v@[j].1)
                        == eval_model(toks, j as u64)),
            decreases max - i,
        {
            match self.eval_at(i) {
                Ok(b) => {
                    v.push((base.iterate(i), b));
                    proof {
                        lemma_defect_is_value_independent(toks, i);
                    }
                },
                Err(e) => {
                    proof {
                        lemma_defect_is_value_independent(toks, i);
                    }
                    return Err(e);
                },
            }
            i = i + 1;
        }
        proof {
            vstd::arithmetic::power2::lemma_pow2_pos(self.spec_var_count());
        }
        Ok(v)
    }

    /// The assignments at which the expression evaluates true, in increasing
    /// counting order.
    #[verifier::loop_isolation(false)]
    pub fn successes(&self) -> (r: Result<Vec<State>, Error>)
        requires
            self.inv(),
        ensures
            runs_clean(self.spec_tokens()) ==> (r matches Ok(v) && vars_of(v@) == success_upto(
                self.spec_tokens(),
                pow2(self.spec_var_count()),
            ) && forall|j: int|
                0 <= j < v@.len() ==> (#[trigger] v@[j]).inv() && v@[j].spec_var_count()
                    == self.spec_var_count()),
            !runs_clean(self.spec_tokens()) ==> r == Err::<Vec<State>, Error>(
                Error::EvaluationDefect,
            ),
    {
        let ghost toks = self.spec_tokens();
        let max = self.max_iter();
        let base = match State::default(self.var_count) {
            Ok(s) => s,
            Err(_) => {
                proof {
                    assert(false);
                }
                return Err(Error::EvaluationDefect);
            },
        };
        let mut v: Vec<State> = Vec::new();
        let mut i: u64 = 0;
        proof {
            assert(vars_of(v@) =~= success_upto(toks, 0));
        }
        while i < max
            invariant
                0 <= i <= max,
                vars_of(v@) =~= success_upto(toks, i as nat),
                i > 0 ==> runs_clean(toks),
                forall|j: int|
                    0 <= j < v@.len() ==> (#[trigger] v@[j]).inv() && v@[j].spec_var_count()
                        == self.spec_var_count(),
            decreases max - i,
        {
            match self.eval_at(i) {
                Ok(b) => {
                    proof {
                        lemma_defect_is_value_independent(toks, i);
                    }
                    if b {
                        v.push(base.iterate(i));
                        proof {
                            assert(vars_of(v@) =~= vars_of(v@.drop_last()).push(i));
                        }
                    }
                },
                Err(e) => {
                    proof {
                        lemma_defect_is_value_independent(toks, i);
                    }
                    return Err(e);
                },
            }
            i = i + 1;
        }
        proof {
            vstd::arithmetic::power2::lemma_pow2_pos(self.spec_var_count());
        }
        Ok(v)
    }

    /// The assignments at which the expression evaluates false, in increasing
    /// counting order.
    #[verifier::loop_isolation(false)]
    pub fn failures(&self) -> (r: Result<Vec<State>, Error>)
        requires
            self.inv(),
        ensures
            runs_clean(self.spec_tokens()) ==> (r matches Ok(v) && vars_of(v@) == failure_upto(
                self.spec_tokens(),
                pow2(self.spec_var_count()),
            ) && forall|j: int|
                0 <= j < v@.len() ==> (#[trigger] v@[j]).inv() && v@[j].spec_var_count()
                    == self.spec_var_count()),
            !runs_clean(self.spec_tokens()) ==> r == Err::<Vec<State>, Error>(
                Error::EvaluationDefect,
            ),
    {
        let ghost toks = self.spec_tokens();
        let max = self.max_iter();
        let base = match State::default(self.var_count) {
            Ok(s) => s,
            Err(_) => {
                proof {
                    assert(false);
                }
                return Err(Error::EvaluationDefect);
            },
        };
        let mut v: Vec<State> = Vec::new();
        let mut i: u64 = 0;
        proof {
            assert(vars_of(v@) =~= failure_upto(toks, 0));
        }
        while i < max
            invariant
                0 <= i <= max,
                vars_of(v@) =~= failure_upto(toks, i as nat),
                i > 0 ==> runs_clean(toks),
                forall|j: int|
                    0 <= j < v@.len() ==> (#[trigger] v@[j]).inv() && v@[j].spec_var_count()
                        == self.spec_var_count(),
            decreases max - i,
        {
            match self.eval_at(i) {
                Ok(b) => {
                    proof {
                        lemma_defect_is_value_independent(toks, i);
                    }
                    if !b {
                        v.push(base.iterate(i));
                        proof {
                            assert(vars_of(v@) =~= vars_of(v@.drop_last()).push(i));
                        }
                    }
                },
                Err(e) => {
                    proof {
                        lemma_defect_is_value_independent(toks, i);
                    }
                    return Err(e);
                },
            }
            i = i + 1;
        }
        proof {
            vstd::arithmetic::power2::lemma_pow2_pos(self.spec_var_count());
        }
        Ok(v)
    }

    /// Whether the expression is a tautology: true at every assignment. Stops
    /// at the first counterexample.
    #[verifier::loop_isolation(false)]
    pub fn is_true(&self) -> (r: Result<bool, Error>)
        requires
            self.inv(),
        ensures
            runs_clean(self.spec_tokens()) ==> r == Ok::<bool, Error>(
                all_true(self.spec_tokens(), pow2(self.spec_var_count())),
            ),
            !runs_clean(self.spec_tokens()) ==> r == Err::<bool, Error>(Error::EvaluationDefect),
    {
        let ghost toks = self.spec_tokens();
        let max = self.max_iter();
        let mut i: u64 = 0;
        while i < max
            invariant
                0 <= i <= max,
                i > 0 ==> runs_clean(toks),
                forall|n: u64| n < i ==> eval_model(toks, n) == Some(true),
            decreases max - i,
        {
            match self.eval_at(i) {
                Ok(b) => {
                    proof {
                        lemma_defect_is_value_independent(toks, i);
                    }
                    if !b {
                        return Ok(false);
                    }
                },
                Err(e) => {
                    proof {
                        lemma_defect_is_value_independent(toks, i);
                    }
                    return Err(e);
                },
            }
            i = i + 1;
        }
        proof {
            vstd::arithmetic::power2::lemma_pow2_pos(self.spec_var_count());
        }
        Ok(true)
    }

    /// Whether the expression is a contradiction: false at every assignment.
    /// Stops at the first satisfying assignment.
    #[verifier::loop_isolation(false)]
    pub fn is_false(&self) -> (r: Result<bool, Error>)
        requires
            self.inv(),
        ensures
            runs_clean(self.spec_tokens()) ==> r == Ok::<bool, Error>(
                all_false(self.spec_tokens(), pow2(self.spec_var_count())),
            ),
            !runs_clean(self.spec_tokens()) ==> r == Err::<bool, Error>(Error::EvaluationDefect),
    {
        let ghost toks = self.spec_tokens();
        let max = self.max_iter();
        let mut i: u64 = 0;
        while i < max
            invariant
                0 <= i <= max,
                i > 0 ==> runs_clean(toks),
                forall|n: u64| n < i ==> eval_model(toks, n) == Some(false),
            decreases max - i,
        {
            match self.eval_at(i) {
                Ok(b) => {
                    proof {
                        lemma_defect_is_value_independent(toks, i);
                    }
                    if b {
                        return Ok(false);
                    }
                },
                Err(e) => {
                    proof {
                        lemma_defect_is_value_independent(toks, i);
                    }
                    return Err(e);
                },
            }
            i = i + 1;
        }
        proof {
            vstd::arithmetic::power2::lemma_pow2_pos(self.spec_var_count());
        }
        Ok(true)
    }
}

/// Under a clean program, every enumerated assignment evaluates to a value.
proof fn lemma_enumeration_clean(toks: Seq<TokenModel>, count: nat)
    requires
        runs_clean(toks),
    ensures
        forall|n: u64| eval_model(toks, n) is Some,
{
    assert forall|n: u64| eval_model(toks, n) is Some by {
        lemma_defect_is_value_independent(toks, n);
    }
}

/// The successes and the failures partition the enumerated state space: every
/// assignment below `count` lies in exactly one of the two, successes hold
/// exactly where the expression evaluates true, failures exactly where it
/// evaluates false, and neither reaches outside the space.
pub proof fn lemma_success_failure_partition(toks: Seq<TokenModel>, count: nat)
    requires
        runs_clean(toks),
        count <= pow2(64),
    ensures
        forall|n: u64|
            (n as nat) < count ==> (#[trigger] success_upto(toks, count).contains(n) <==>
            eval_model(toks, n) == Some(true)),
        forall|n: u64|
            (n as nat) < count ==> (#[trigger] failure_upto(toks, count).contains(n) <==>
            eval_model(toks, n) == Some(false)),
        forall|n: u64| #[trigger] success_upto(toks, count).contains(n) ==> (n as nat) < count,
        forall|n: u64| #[trigger] failure_upto(toks, count).contains(n) ==> (n as nat) < count,
        forall|n: u64|
            !(#[trigger] success_upto(toks, count).contains(n) && #[trigger] failure_upto(
                toks,
                count,
            ).contains(n)),
    decreases count,
{
    lemma_enumeration_clean(toks, count);
    if count > 0 {
        lemma_success_failure_partition(toks, (count - 1) as nat);
        let prev_s = success_upto(toks, (count - 1) as nat);
        let prev_f = failure_upto(toks, (count - 1) as nat);
        let last = ((count - 1) as nat) as u64;
        assert forall|n: u64| #[trigger] success_upto(toks, count).contains(n) implies (
        prev_s.contains(n) || n == last) by {
            if eval_model(toks, last) == Some(true) {
                let wi = choose|wi: int|
                    0 <= wi < success_upto(toks, count).len() && success_upto(toks, count)[wi]
                        == n;
                if wi < prev_s.len() {
                    assert(prev_s[wi] == n);
                }
            }
        }
        assert forall|n: u64| #[trigger] failure_upto(toks, count).contains(n) implies (
        prev_f.contains(n) || n == last) by {
            if eval_model(toks, last) == Some(false) {
                let wi = choose|wi: int|
                    0 <= wi < failure_upto(toks, count).len() && failure_upto(toks, count)[wi]
                        == n;
                if wi < prev_f.len() {
                    assert(prev_f[wi] == n);
                }
            }
        }
        assert forall|n: u64| prev_s.contains(n) implies #[trigger] success_upto(
            toks,
            count,
        ).contains(n) by {
            let wi = choose|wi: int| 0 <= wi < prev_s.len() && prev_s[wi] == n;
            assert(success_upto(toks, count)[wi] == n);
        }
        assert forall|n: u64| prev_f.contains(n) implies #[trigger] failure_upto(
            toks,
            count,
        ).contains(n) by {
            let wi = choose|wi: int| 0 <= wi < prev_f.len() && prev_f[wi] == n;
            assert(failure_upto(toks, count)[wi] == n);
        }
        if eval_model(toks, last) == Some(true) {
            assert(success_upto(toks, count).last() == last);
            assert(success_upto(toks, count).contains(last));
        } else {
            assert(failure_upto(toks, count).last() == last);
            assert(failure_upto(toks, count).contains(last));
        }
    }
}

/// An expression is a tautology exactly when it has no failures, and a
/// contradiction exactly when it has no successes.
pub proof fn lemma_is_true_iff_no_failures(toks: Seq<TokenModel>, count: nat)
    requires
        runs_clean(toks),
    ensures
        all_true(toks, count) <==> failure_upto(toks, count).len() == 0,
        all_false(toks, count) <==> success_upto(toks, count).len() == 0,
    decreases count,
{
    lemma_enumeration_clean(toks, count);
    if count > 0 {
        lemma_is_true_iff_no_failures(toks, (count - 1) as nat);
        let last = ((count - 1) as nat) as u64;
        if all_true(toks, count) {
            assert(eval_model(toks, last) == Some(true));
        }
        if all_false(toks, count) {
            assert(eval_model(toks, last) == Some(false));
        }
        if failure_upto(toks, count).len() == 0 {
            assert(failure_upto(toks, (count - 1) as nat).len() == 0);
            assert(eval_model(toks, last) != Some(false));
            assert forall|n: u64| (n as nat) < count implies eval_model(toks, n) == Some(
                true,
            ) by {
                if (n as nat) < count - 1 {
                } else {
                    assert(n == last);
                }
            }
        }
        if success_upto(toks, count).len() == 0 {
            assert(success_upto(toks, (count - 1) as nat).len() == 0);
            assert(eval_model(toks, last) != Some(true));
            assert forall|n: u64| (n as nat) < count implies eval_model(toks, n) == Some(
                false,
            ) by {
                if (n as nat) < count - 1 {
                } else {
                    assert(n == last);
                }
            }
        }
    }
}


} // verus!
