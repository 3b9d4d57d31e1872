//! A small seedable pseudo-random number generator built on a linear
//! congruential recurrence, with unbiased bounded draws and typed sampling
//! over every integer width.
//!
//! [`Rng`] is a generator owned by one caller. [`Random`] is one generator
//! shared between callers: each typed draw holds its lock from the first
//! draw of the recurrence to the last.

pub mod base;
pub mod period;

pub use base::{RandError, Randomable};

use vstd::prelude::*;
use vstd::rwlock::{RwLock, RwLockPredicate};
use base::{bounded_state, bounded_value, next_state};

verus! {

/// A generator owned by one caller.
#[derive(Debug, Clone, Copy)]
pub struct Rng {
    base: base::Rng,
}

impl View for Rng {
    type V = u128;

    /// The state register.
    closed spec fn view(&self) -> u128 {
        self.base@
    }
}

impl Rng {
    /// A generator seeded from the wall clock.
    pub fn new() -> (r: Rng) {
        Rng { base: base::Rng::new() }
    }

    /// A generator whose state is `s`.
    pub fn with_seed(s: u128) -> (r: Rng)
        ensures
            r@ == s,
    {
        Rng { base: base::Rng::with_seed(s) }
    }

    /// Overwrites the state; any value is accepted, the next draw reduces it.
    pub fn set_seed(&mut self, s: u128)
        ensures
            final(self)@ == s,
    {
        self.base.set_seed(s)
    }

    /// The current state.
    pub fn get_seed(self) -> (r: u128)
        ensures
            r == self@,
    {
        self.base.get_seed()
    }

    /// Advances the state by the recurrence and returns the new state.
    pub fn rand(&mut self) -> (r: u128)
        ensures
            r == next_state(old(self)@),
            final(self)@ == r,
    {
        self.base.rand()
    }

    /// Draws a value in `[0, n)`; an empty bound `n == 0` is refused.
    pub fn randn(&mut self, n: u128) -> (r: Result<u128, RandError>)
        ensures
            n == 0 ==> r == Err::<u128, RandError>(RandError::InvalidArgument) && final(self)@ == old(self)@,
            n > 0 ==> r == Ok::<u128, RandError>(bounded_value(old(self)@, n)) && final(self)@ == bounded_state(old(self)@, n),
            r matches Ok(v) ==> v < n,
    {
        self.base.randn(n)
    }

    /// Draws a value in `[min, max)`; an empty range `max <= min` is refused.
    pub fn rand_range(&mut self, min: u128, max: u128) -> (r: Result<u128, RandError>)
        ensures
            max <= min ==> r == Err::<u128, RandError>(RandError::InvalidArgument) && final(self)@ == old(self)@,
            min < max ==> r == Ok::<u128, RandError>((min + bounded_value(old(self)@, (max - min) as u128)) as u128)
                && final(self)@ == bounded_state(old(self)@, (max - min) as u128),
            r matches Ok(v) ==> min <= v < max,
    {
        self.base.rand_range(min, max)
    }
}

/// The lock of a shared generator admits every state.
struct AnyState;

impl RwLockPredicate<base::Rng> for AnyState {
    open spec fn inv(self, v: base::Rng) -> bool {
        true
    }
}

/// One generator shared between callers behind a lock. Each call takes the
/// lock for its whole draw, however many steps of the recurrence it spends,
/// and releases it before returning.
pub struct Random {
    rng: RwLock<base::Rng, AnyState>,
}

impl Random {
    /// A shared generator whose state is `s`.
    pub fn new(s: u128) -> (r: Random) {
        Random { rng: RwLock::new(base::Rng::with_seed(s), Ghost(AnyState)) }
    }

    /// A value in `[MIN, MAX)` of `T`.
    pub fn rand<T: Randomable>(&self) -> (r: T)
        ensures
            T::min_int() <= r.to_int() < T::max_int(),
    {
        let (mut rng, handle) = self.rng.acquire_write();
        let r = T::rand(&mut rng);
        handle.release_write(rng);
        r
    }

    /// A value in `[0, n)`; a bound `n <= 0` is refused.
    pub fn randn<T: Randomable>(&self, n: T) -> (r: Result<T, RandError>)
        ensures
            n.to_int() <= 0 <==> r == Err::<T, RandError>(RandError::InvalidArgument),
            r matches Ok(v) ==> 0 <= v.to_int() < n.to_int(),
    {
        let (mut rng, handle) = self.rng.acquire_write();
        let r = T::randn(&mut rng, n);
        handle.release_write(rng);
        r
    }

    /// A value in `[min, max)`; an empty range `max <= min` is refused.
    pub fn rand_range<T: Randomable>(&self, min: T, max: T) -> (r: Result<T, RandError>)
        ensures
            max.to_int() <= min.to_int() <==> r == Err::<T, RandError>(RandError::InvalidArgument),
            r matches Ok(v) ==> min.to_int() <= v.to_int() < max.to_int(),
    {
        let (mut rng, handle) = self.rng.acquire_write();
        let r = T::rand_range(&mut rng, min, max);
        handle.release_write(rng);
        r
    }

    /// A point of the grid `[0, 2^bits)`, from the top `bits` bits of one
    /// draw of the shared generator.
    pub fn unit_grid(&self, bits: u32) -> (r: u128)
        requires
            bits <= 31,
        ensures
            r < (1u128 << bits),
    {
        let (mut rng, handle) = self.rng.acquire_write();
        let r: u128 = rng.unit_grid(bits);
        handle.release_write(rng);
        r
    }

    /// Overwrites the shared state.
    pub fn set_seed(&self, s: u128) {
        let (mut rng, handle) = self.rng.acquire_write();
        rng.set_seed(s);
        handle.release_write(rng);
    }
}

} // verus!
