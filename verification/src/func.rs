//! A tester over an arbitrary predicate: the same exhaustive enumeration as
//! the parsed tester, applied to any function of a [`State`].

use crate::state::{spec_state, State, STATE_BITS};
use crate::Error;
use vstd::arithmetic::power2::pow2;
use vstd::prelude::*;

verus! {

/// A tester over a caller-supplied predicate of a [`State`]. What it can
/// promise of its answers is bounded by the predicate's own contract: every
/// reported value is one the predicate could return at that state.
pub struct Tester<F: Fn(State) -> bool> {
    expr: F,
    var_count: usize,
    last_iter: u64,
}

impl<F: Fn(State) -> bool> Tester<F> {
    /// The predicate under test.
    pub closed spec fn spec_expr(&self) -> F {
        self.expr
    }

    /// The number of variables enumerated.
    pub closed spec fn spec_var_count(&self) -> nat {
        self.var_count as nat
    }

    /// The resumable scan's cursor: the next assignment to test.
    pub closed spec fn spec_cursor(&self) -> u64 {
        self.last_iter
    }

    /// Well-formedness: the variables fit one packed state and the cursor
    /// never passes the end of the space.
    pub open spec fn inv(&self) -> bool {
        &&& self.spec_var_count() < STATE_BITS
        &&& self.spec_cursor() <= pow2(self.spec_var_count())
    }

    /// Whether the predicate accepts every assignment this tester can hand
    /// it.
    pub open spec fn callable(&self) -> bool {
        forall|s: State|
            (s.inv() && s.spec_var_count() == self.spec_var_count()) ==> call_requires(
                self.spec_expr(),
                (s,),
            )
    }

    /// Wrap a predicate over `var_count` variables, or report `CapacityError`
    /// when that many variables cannot be packed.
    pub fn new(var_count: usize, expr: F) -> (r: Result<Tester<F>, Error>)
        ensures
            var_count < STATE_BITS ==> (r matches Ok(t) && t.inv() && t.spec_expr() == expr
                && t.spec_var_count() == var_count && t.spec_cursor() == 0),
            var_count >= STATE_BITS ==> (r matches Err(e) && e == Error::CapacityError),
    {
        if var_count >= STATE_BITS {
            Err(Error::CapacityError)
        } else {
            proof {
                vstd::arithmetic::power2::lemma_pow2_pos(var_count as nat);
            }
            Ok(Tester { expr, var_count, last_iter: 0 })
        }
    }

    /// The number of assignments enumeration visits.
    pub fn max_iters(&self) -> (r: u64)
        requires
            self.inv(),
        ensures
            r == pow2(self.spec_var_count()),
    {
        proof {
            crate::state::lemma_shift_is_pow2(self.spec_var_count());
        }
        1u64 << (self.var_count as u64)
    }

    /// Evaluate the predicate at every assignment, in increasing counting
    /// order. Each reported value is one the predicate could return at that
    /// state.
    #[verifier::loop_isolation(false)]
    pub fn eval(&self) -> (r: Vec<(State, bool)>)
        requires
            self.inv(),
            self.callable(),
        ensures
            r@.len() == pow2(self.spec_var_count()),
            forall|j: int|
                0 <= j < r@.len() ==> ((#[trigger] r@[j]).0.inv() && r@[j].0.spec_vars() == j
                    && r@[j].0.spec_var_count() == self.spec_var_count() && call_ensures(
                    self.spec_expr(),
                    (r@[j].0,),
                    r@[j].1,
                )),
    {
        let max = self.max_iters();
        let mut v: Vec<(State, bool)> = Vec::new();
        let mut i: u64 = 0;
        while i < max
            invariant
                0 <= i <= max,
                v@.len() == i,
                forall|j: int|
                    0 <= j < v@.len() ==> ((#[trigger] v@[j]).0.inv() && v@[j].0.spec_vars() == j
                        && v@[j].0.spec_var_count() == self.spec_var_count() && call_ensures(
                        self.spec_expr(),
                        (v@[j].0,),
                        v@[j].1,
                    )),
            decreases max - i,
        {
            let st = self.state_at(i);
            let b = (self.expr)(st);
            v.push((st, b));
            i = i + 1;
        }
        v
    }

    /// The assignments the predicate accepted, in increasing counting order.
    /// The listing is complete: an assignment left out is one the predicate
    /// could reject.
    #[verifier::loop_isolation(false)]
    pub fn successes(&self) -> (r: Vec<State>)
        requires
            self.inv(),
            self.callable(),
        ensures
            forall|j: int|
                0 <= j < r@.len() ==> ((#[trigger] r@[j]).inv() && r@[j].spec_var_count()
                    == self.spec_var_count() && r@[j].spec_vars() < pow2(self.spec_var_count())
                    && call_ensures(self.spec_expr(), (r@[j],), true)),
            forall|j1: int, j2: int|
                0 <= j1 < j2 < r@.len() ==> r@[j1].spec_vars() < r@[j2].spec_vars(),
            forall|n: u64|
                n < pow2(self.spec_var_count()) ==> ((exists|j: int|
                    0 <= j < r@.len() && (#[trigger] r@[j]).spec_vars() == n) || call_ensures(
                    self.spec_expr(),
                    (#[trigger] spec_state(n, self.spec_var_count()),),
                    false,
                )),
    {
        let max = self.max_iters();
        let mut v: Vec<State> = Vec::new();
        let mut i: u64 = 0;
        while i < max
            invariant
                0 <= i <= max,
                forall|j: int|
                    0 <= j < v@.len() ==> ((#[trigger] v@[j]).inv() && v@[j].spec_var_count()
                        == self.spec_var_count() && v@[j].spec_vars() < i && call_ensures(
                        self.spec_expr(),
                        (v@[j],),
                        true,
                    )),
                forall|j1: int, j2: int|
                    0 <= j1 < j2 < v@.len() ==> v@[j1].spec_vars() < v@[j2].spec_vars(),
                forall|n: u64|
                    n < i ==> ((exists|j: int|
                        0 <= j < v@.len() && (#[trigger] v@[j]).spec_vars() == n) || call_ensures(
                        self.spec_expr(),
                        (#[trigger] spec_state(n, self.spec_var_count()),),
                        false,
                    )),
            decreases max - i,
        {
            let st = self.state_at(i);
            let ghost v0 = v@;
            if (self.expr)(st) {
                v.push(st);
            }
            proof {
                assert forall|n: u64| n < i + 1 implies ((exists|j: int|
                    0 <= j < v@.len() && (#[trigger] v@[j]).spec_vars() == n) || call_ensures(
                    self.spec_expr(),
                    (#[trigger] spec_state(n, self.spec_var_count()),),
                    false,
                )) by {
                    if n < i {
                        if exists|j: int| 0 <= j < v0.len() && (#[trigger] v0[j]).spec_vars()
                            == n {
                            let j = choose|j: int|
                                0 <= j < v0.len() && (#[trigger] v0[j]).spec_vars() == n;
                            assert(v@[j].spec_vars() == n);
                        }
                    } else {
                        if v@.len() > v0.len() {
                            assert(v@[v@.len() - 1].spec_vars() == i);
                        }
                    }
                }
            }
            i = i + 1;
        }
        v
    }

    /// The assignments the predicate rejected, in increasing counting order.
    /// The listing is complete: an assignment left out is one the predicate
    /// could accept.
    #[verifier::loop_isolation(false)]
    pub fn failures(&self) -> (r: Vec<State>)
        requires
            self.inv(),
            self.callable(),
        ensures
            forall|j: int|
                0 <= j < r@.len() ==> ((#[trigger] r@[j]).inv() && r@[j].spec_var_count()
                    == self.spec_var_count() && r@[j].spec_vars() < pow2(self.spec_var_count())
                    && call_ensures(self.spec_expr(), (r@[j],), false)),
            forall|j1: int, j2: int|
                0 <= j1 < j2 < r@.len() ==> r@[j1].spec_vars() < r@[j2].spec_vars(),
            forall|n: u64|
                n < pow2(self.spec_var_count()) ==> ((exists|j: int|
                    0 <= j < r@.len() && (#[trigger] r@[j]).spec_vars() == n) || call_ensures(
                    self.spec_expr(),
                    (#[trigger] spec_state(n, self.spec_var_count()),),
                    true,
                )),
    {
        let max = self.max_iters();
        let mut v: Vec<State> = Vec::new();
        let mut i: u64 = 0;
        while i < max
            invariant
                0 <= i <= max,
                forall|j: int|
                    0 <= j < v@.len() ==> ((#[trigger] v@[j]).inv() && v@[j].spec_var_count()
                        == self.spec_var_count() && v@[j].spec_vars() < i && call_ensures(
                        self.spec_expr(),
                        (v@[j],),
                        false,
                    )),
                forall|j1: int, j2: int|
                    0 <= j1 < j2 < v@.len() ==> v@[j1].spec_vars() < v@[j2].spec_vars(),
                forall|n: u64|
                    n < i ==> ((exists|j: int|
                        0 <= j < v@.len() && (#[trigger] v@[j]).spec_vars() == n) || call_ensures(
                        self.spec_expr(),
                        (#[trigger] spec_state(n, self.spec_var_count()),),
                        true,
                    )),
            decreases max - i,
        {
            let st = self.state_at(i);
            let ghost v0 = v@;
            if !(self.expr)(st) {
                v.push(st);
            }
            proof {
                assert forall|n: u64| n < i + 1 implies ((exists|j: int|
                    0 <= j < v@.len() && (#[trigger] v@[j]).spec_vars() == n) || call_ensures(
                    self.spec_expr(),
                    (#[trigger] spec_state(n, self.spec_var_count()),),
                    true,
                )) by {
                    if n < i {
                        if exists|j: int| 0 <= j < v0.len() && (#[trigger] v0[j]).spec_vars()
                            == n {
                            let j = choose|j: int|
                                0 <= j < v0.len() && (#[trigger] v0[j]).spec_vars() == n;
                            assert(v@[j].spec_vars() == n);
                        }
                    } else {
                        if v@.len() > v0.len() {
                            assert(v@[v@.len() - 1].spec_vars() == i);
                        }
                    }
                }
            }
            i = i + 1;
        }
        v
    }

    /// Whether the predicate accepted every assignment: when it did not, some
    /// assignment could be rejected by the predicate.
    #[verifier::loop_isolation(false)]
    pub fn succeeded(&self) -> (r: bool)
        requires
            self.inv(),
            self.callable(),
        ensures
            r ==> forall|n: u64|
                n < pow2(self.spec_var_count()) ==> call_ensures(
                    self.spec_expr(),
                    (spec_state(n, self.spec_var_count()),),
                    true,
                ),
            !r ==> exists|n: u64|
                n < pow2(self.spec_var_count()) && call_ensures(
                    self.spec_expr(),
                    (spec_state(n, self.spec_var_count()),),
                    false,
                ),
    {
        let max = self.max_iters();
        let mut i: u64 = 0;
        while i < max
            invariant
                0 <= i <= max,
                forall|n: u64|
                    n < i ==> call_ensures(
                        self.spec_expr(),
                        (spec_state(n, self.spec_var_count()),),
                        true,
                    ),
            decreases max - i,
        {
            let st = self.state_at(i);
            if !(self.expr)(st) {
                return false;
            }
            i = i + 1;
        }
        true
    }

    /// Whether the predicate rejected every assignment: when it did not, some
    /// assignment could be accepted by the predicate.
    #[verifier::loop_isolation(false)]
    pub fn failed(&self) -> (r: bool)
        requires
            self.inv(),
            self.callable(),
        ensures
            r ==> forall|n: u64|
                n < pow2(self.spec_var_count()) ==> call_ensures(
                    self.spec_expr(),
                    (spec_state(n, self.spec_var_count()),),
                    false,
                ),
            !r ==> exists|n: u64|
                n < pow2(self.spec_var_count()) && call_ensures(
                    self.spec_expr(),
                    (spec_state(n, self.spec_var_count()),),
                    true,
                ),
    {
        let max = self.max_iters();
        let mut i: u64 = 0;
        while i < max
            invariant
                0 <= i <= max,
                forall|n: u64|
                    n < i ==> call_ensures(
                        self.spec_expr(),
                        (spec_state(n, self.spec_var_count()),),
                        false,
                    ),
            decreases max - i,
        {
            let st = self.state_at(i);
            if (self.expr)(st) {
                return false;
            }
            i = i + 1;
        }
        true
    }

    /// One scan of all assignments of `var_count` variables: whether the
    /// predicate accepted every one.
    pub fn passes(var_count: usize, expr: F) -> (r: Result<bool, Error>)
        requires
            forall|s: State|
                (s.inv() && s.spec_var_count() == var_count) ==> call_requires(expr, (s,)),
        ensures
            var_count >= STATE_BITS ==> (r matches Err(e) && e == Error::CapacityError),
            var_count < STATE_BITS ==> (r matches Ok(b) && (b ==> forall|n: u64|
                n < pow2(var_count as nat) ==> call_ensures(
                    expr,
                    (spec_state(n, var_count as nat),),
                    true,
                )) && (!b ==> exists|n: u64|
                n < pow2(var_count as nat) && call_ensures(
                    expr,
                    (spec_state(n, var_count as nat),),
                    false,
                ))),
    {
        match Self::new(var_count, expr) {
            Ok(t) => Ok(t.succeeded()),
            Err(e) => Err(e),
        }
    }

    /// One scan of all assignments of `var_count` variables: whether the
    /// predicate rejected every one.
    pub fn fails(var_count: usize, expr: F) -> (r: Result<bool, Error>)
        requires
            forall|s: State|
                (s.inv() && s.spec_var_count() == var_count) ==> call_requires(expr, (s,)),
        ensures
            var_count >= STATE_BITS ==> (r matches Err(e) && e == Error::CapacityError),
            var_count < STATE_BITS ==> (r matches Ok(b) && (b ==> forall|n: u64|
                n < pow2(var_count as nat) ==> call_ensures(
                    expr,
                    (spec_state(n, var_count as nat),),
                    false,
                )) && (!b ==> exists|n: u64|
                n < pow2(var_count as nat) && call_ensures(
                    expr,
                    (spec_state(n, var_count as nat),),
                    true,
                ))),
    {
        match Self::new(var_count, expr) {
            Ok(t) => Ok(t.failed()),
            Err(e) => Err(e),
        }
    }

    /// Rewind the resumable scan to the first assignment.
    pub fn reset(&mut self)
        requires
            old(self).inv(),
        ensures
            final(self).inv(),
            final(self).spec_cursor() == 0,
            final(self).spec_expr() == old(self).spec_expr(),
            final(self).spec_var_count() == old(self).spec_var_count(),
    {
        self.last_iter = 0;
    }

    /// Test the assignment at the cursor and advance past it; nothing once
    /// the space is exhausted.
    pub fn test(&mut self) -> (r: Option<bool>)
        requires
            old(self).inv(),
            old(self).callable(),
        ensures
            final(self).inv(),
            final(self).spec_expr() == old(self).spec_expr(),
            final(self).spec_var_count() == old(self).spec_var_count(),
            old(self).spec_cursor() == pow2(old(self).spec_var_count()) ==> (r is None
                && final(self).spec_cursor() == old(self).spec_cursor()),
            old(self).spec_cursor() < pow2(old(self).spec_var_count()) ==> (r matches Some(b)
                && final(self).spec_cursor() == old(self).spec_cursor() + 1 && call_ensures(
                old(self).spec_expr(),
                (spec_state(old(self).spec_cursor(), old(self).spec_var_count()),),
                b,
            )),
    {
        let max = self.max_iters();
        if self.last_iter >= max {
            None
        } else {
            let st = self.state_at(self.last_iter);
            let b = (self.expr)(st);
            self.last_iter = self.last_iter + 1;
            Some(b)
        }
    }

    /// Scan forward from the cursor for an assignment the predicate accepts:
    /// whether one was found before the space ran out. On a find the cursor
    /// stops just past the accepting assignment; otherwise it rests at the
    /// end of the space.
    #[verifier::loop_isolation(false)]
    pub fn test_sucess(&mut self) -> (r: bool)
        requires
            old(self).inv(),
            old(self).callable(),
        ensures
            final(self).inv(),
            final(self).spec_expr() == old(self).spec_expr(),
            final(self).spec_var_count() == old(self).spec_var_count(),
            r ==> (old(self).spec_cursor() < final(self).spec_cursor() <= pow2(
                old(self).spec_var_count(),
            ) && call_ensures(
                old(self).spec_expr(),
                (spec_state((final(self).spec_cursor() - 1) as u64, old(self).spec_var_count()),),
                true,
            ) && (forall|n: u64|
                old(self).spec_cursor() <= n < final(self).spec_cursor() - 1 ==> call_ensures(
                    old(self).spec_expr(),
                    (spec_state(n, old(self).spec_var_count()),),
                    false,
                ))),
            !r ==> (final(self).spec_cursor() == pow2(old(self).spec_var_count()) && (forall|
                n: u64,
            |
                old(self).spec_cursor() <= n < pow2(old(self).spec_var_count()) ==> call_ensures(
                    old(self).spec_expr(),
                    (spec_state(n, old(self).spec_var_count()),),
                    false,
                ))),
    {
        loop
            invariant
                self.inv(),
                self.callable(),
                self.spec_expr() == old(self).spec_expr(),
                self.spec_var_count() == old(self).spec_var_count(),
                old(self).spec_cursor() <= self.spec_cursor(),
                forall|n: u64|
                    old(self).spec_cursor() <= n < self.spec_cursor() ==> call_ensures(
                        old(self).spec_expr(),
                        (spec_state(n, old(self).spec_var_count()),),
                        false,
                    ),
            decreases pow2(self.spec_var_count()) - self.spec_cursor(),
        {
            match self.test() {
                None => {
                    return false;
                },
                Some(b) => {
                    if b {
                        return true;
                    }
                },
            }
        }
    }

    /// Scan forward from the cursor for an assignment the predicate rejects:
    /// whether one was found before the space ran out. On a find the cursor
    /// stops just past the rejecting assignment; otherwise it rests at the
    /// end of the space.
    #[verifier::loop_isolation(false)]
    pub fn test_fail(&mut self) -> (r: bool)
        requires
            old(self).inv(),
            old(self).callable(),
        ensures
            final(self).inv(),
            final(self).spec_expr() == old(self).spec_expr(),
            final(self).spec_var_count() == old(self).spec_var_count(),
            r ==> (old(self).spec_cursor() < final(self).spec_cursor() <= pow2(
                old(self).spec_var_count(),
            ) && call_ensures(
                old(self).spec_expr(),
                (spec_state((final(self).spec_cursor() - 1) as u64, old(self).spec_var_count()),),
                false,
            ) && (forall|n: u64|
                old(self).spec_cursor() <= n < final(self).spec_cursor() - 1 ==> call_ensures(
                    old(self).spec_expr(),
                    (spec_state(n, old(self).spec_var_count()),),
                    true,
                ))),
            !r ==> (final(self).spec_cursor() == pow2(old(self).spec_var_count()) && (forall|
                n: u64,
            |
                old(self).spec_cursor() <= n < pow2(old(self).spec_var_count()) ==> call_ensures(
                    old(self).spec_expr(),
                    (spec_state(n, old(self).spec_var_count()),),
                    true,
                ))),
    {
        loop
            invariant
                self.inv(),
                self.callable(),
                self.spec_expr() == old(self).spec_expr(),
                self.spec_var_count() == old(self).spec_var_count(),
                old(self).spec_cursor() <= self.spec_cursor(),
                forall|n: u64|
                    old(self).spec_cursor() <= n < self.spec_cursor() ==> call_ensures(
                        old(self).spec_expr(),
                        (spec_state(n, old(self).spec_var_count()),),
                        true,
                    ),
            decreases pow2(self.spec_var_count()) - self.spec_cursor(),
        {
            match self.test() {
                None => {
                    return false;
                },
                Some(b) => {
                    if !b {
                        return true;
                    }
                },
            }
        }
    }

    /// The assignment whose packed bits equal `n`.
    fn state_at(&self, n: u64) -> (r: State)
        requires
            self.inv(),
        ensures
            r == spec_state(n, self.spec_var_count()),
            r.inv(),
            r.spec_vars() == n,
            r.spec_var_count() == self.spec_var_count(),
    {
        proof {
            crate::state::lemma_spec_state(n, self.spec_var_count());
        }
        let base = match State::default(self.var_count) {
            Ok(s) => s,
            Err(_) => {
                proof {
                    assert(false);
                }
                vstd::pervasive::unreached()
            },
        };
        let st = base.iterate(n);
        proof {
            crate::state::lemma_state_ext(st, spec_state(n, self.spec_var_count()));
        }
        st
    }
}

} // verus!
