//! The bit-packed variable assignment that one evaluation step runs against.

use crate::Error;
use bit_field::BitField;
use vstd::arithmetic::power2::pow2;
use vstd::prelude::*;

verus! {

/// The number of variables a [`State`] can pack: the bit width of the `u64`
/// that stores them.
pub const STATE_BITS: usize = 64;

/// Truth of bit `i` of the packed assignment `n`: variable `i` holds exactly
/// when that bit is set.
pub open spec fn bitof(n: u64, i: nat) -> bool {
    i < 64 && (n >> (i as u64)) & 1u64 == 1u64
}

/// One complete assignment of truth values to all variables of an expression,
/// packed into a `u64` together with its enumeration index.
///
/// The packed value *is* the enumeration index: bit `i` holds variable `i`'s
/// truth value, with bit 0 the fastest-toggling. At most [`STATE_BITS`] minus
/// one variables fit; construction fails with [`Error::CapacityError`] beyond
/// that.
#[derive(Clone, Copy, Debug)]
pub struct State {
    vars: u64,
    var_count: usize,
}

/// Relies on `bit_field::BitField::get_bit` for `u64`: it returns
/// `(*v & (1 << bit)) != 0`, and panics when `bit` is not below the bit width.
pub assume_specification[ <u64 as BitField>::get_bit ](v: &u64, bit: usize) -> (r: bool)
    requires
        bit < 64,
    ensures
        r == ((*v & (1u64 << (bit as u64))) != 0),
;

impl State {
    /// The packed assignment, which is also the enumeration index.
    pub closed spec fn spec_vars(&self) -> u64 {
        self.vars
    }

    /// The number of variables this assignment covers.
    pub closed spec fn spec_var_count(&self) -> nat {
        self.var_count as nat
    }

    /// Well-formedness: the variable count must leave every variable a bit of
    /// its own inside the word.
    pub open spec fn inv(&self) -> bool {
        self.spec_var_count() < STATE_BITS
    }

    /// Create the all-false assignment over `var_count` variables, or report
    /// `CapacityError` when that many variables cannot be packed.
    pub fn default(var_count: usize) -> (r: Result<State, Error>)
        ensures
            var_count < STATE_BITS ==> (r matches Ok(s) && s.inv() && s.spec_vars() == 0
                && s.spec_var_count() == var_count),
            var_count >= STATE_BITS ==> r == Err::<State, Error>(Error::CapacityError),
    {
        if var_count >= STATE_BITS {
            Err(Error::CapacityError)
        } else {
            Ok(State { vars: 0, var_count })
        }
    }

    /// The assignment over the same variables whose packed bit pattern equals
    /// `iteration`.
    pub fn iterate(&self, iteration: u64) -> (r: State)
        ensures
            r.spec_vars() == iteration,
            r.spec_var_count() == self.spec_var_count(),
            self.inv() ==> r.inv(),
    {
        State { vars: iteration, var_count: self.var_count }
    }

    /// The enumeration index this assignment stands at.
    pub fn iteration(&self) -> (r: u64)
        ensures
            r == self.spec_vars(),
    {
        self.vars
    }

    /// The truth value of variable `idx` under this assignment.
    pub fn var_at(&self, idx: usize) -> (r: bool)
        requires
            self.inv(),
            idx < self.spec_var_count(),
        ensures
            r == bitof(self.spec_vars(), idx as nat),
    {
        let v: u64 = self.vars;
        let r = v.get_bit(idx);
        proof {
            let i = idx as u64;
            assert(((v & (1u64 << i)) != 0) == ((v >> i) & 1u64 == 1u64)) by (bit_vector)
                requires
                    i < 64,
            ;
        }
        r
    }

    /// The number of variables this assignment covers.
    pub fn var_count(&self) -> (r: usize)
        ensures
            r == self.spec_var_count(),
    {
        self.var_count
    }

    /// The number of distinct assignments over this many variables.
    pub fn max_iters(&self) -> (r: u64)
        requires
            self.inv(),
        ensures
            r == pow2(self.spec_var_count()),
    {
        proof {
            lemma_shift_is_pow2(self.var_count as nat);
        }
        1u64 << (self.var_count as u64)
    }
}

/// The assignment value with the given packed bits and variable count.
pub closed spec fn spec_state(vars: u64, var_count: nat) -> State {
    State { vars, var_count: var_count as usize }
}

/// What [`spec_state`] denotes, for counts that fit the word.
pub proof fn lemma_spec_state(vars: u64, var_count: nat)
    requires
        var_count < STATE_BITS,
    ensures
        spec_state(vars, var_count).spec_vars() == vars,
        spec_state(vars, var_count).spec_var_count() == var_count,
        spec_state(vars, var_count).inv(),
{
}

/// Two states with the same packed bits and count are the same state.
pub proof fn lemma_state_ext(a: State, b: State)
    requires
        a.spec_vars() == b.spec_vars(),
        a.spec_var_count() == b.spec_var_count(),
    ensures
        a == b,
{
}

/// Shifting one left by `c` computes the `c`-th power of two, for any count
/// that fits the word.
pub proof fn lemma_shift_is_pow2(c: nat)
    requires
        c < 64,
    ensures
        (1u64 << (c as u64)) == pow2(c),
{
    vstd::bits::lemma_u64_pow2_no_overflow(c);
    vstd::bits::lemma_u64_shl_is_mul(1u64, c as u64);
}

} // verus!
