//! The generator engine: the recurrence, bounded draws by rejection
//! sampling, and the typed sampling adapter.

use vstd::arithmetic::div_mod::{lemma_add_mod_noop, lemma_mod_twice, lemma_mul_mod_noop_right};
use vstd::prelude::*;
use crate::period::lemma_rejection_stops_on_first_accepted;

verus! {

/// Multiplier of the recurrence.
pub const MULTIPLIER: u128 = 1103515245;

/// Increment of the recurrence.
pub const INCREMENT: u128 = 12345;

/// Modulus of the recurrence, `2^31`; every draw lies below it.
pub const MODULUS: u128 = 2147483648;

/// The state that follows `s`: `(MULTIPLIER * s + INCREMENT) mod MODULUS`.
pub open spec fn next_state(s: u128) -> u128 {
    ((MULTIPLIER * s + INCREMENT) % (MODULUS as int)) as u128
}

/// The bound on the draws of the rejection loop. The recurrence has full
/// period, so the first accepted draw always comes within it
/// (`period::lemma_rejection_stops_on_first_accepted`): the bound only
/// gives the loop a measure and never ends a search.
pub const RETRY_LIMIT: u128 = 2147483648;

/// `n` is a power of two.
pub open spec fn is_power_of_two(n: u128) -> bool {
    n != 0 && n & ((n - 1) as u128) == 0
}

/// The largest draw accepted for the bound `n > 0`: the accepted draws
/// `0..=ceiling` are a whole multiple of `n` in number, or every draw when
/// `n` exceeds the modulus.
pub open spec fn acceptance_ceiling(n: u128) -> u128 {
    if n > MODULUS {
        (MODULUS - 1) as u128
    } else {
        (MODULUS - 1 - MODULUS % n) as u128
    }
}

/// The state reached from `s` by drawing until a draw is at most `ceiling`,
/// or until `fuel` further draws are spent.
pub open spec fn rejection_walk(s: u128, ceiling: u128, fuel: nat) -> u128
    decreases fuel,
{
    let v = next_state(s);
    if v <= ceiling || fuel == 0 {
        v
    } else {
        rejection_walk(v, ceiling, (fuel - 1) as nat)
    }
}

/// The state after a draw bounded by `n > 0` from state `s`.
pub open spec fn bounded_state(s: u128, n: u128) -> u128 {
    if is_power_of_two(n) {
        next_state(s)
    } else {
        rejection_walk(s, acceptance_ceiling(n), RETRY_LIMIT as nat)
    }
}

/// The value of a draw bounded by `n > 0` from state `s`: the low bits of
/// one draw when `n` is a power of two, else the accepted draw modulo `n`.
pub open spec fn bounded_value(s: u128, n: u128) -> u128 {
    if is_power_of_two(n) {
        next_state(s) & ((n - 1) as u128)
    } else {
        (bounded_state(s, n) % n) as u128
    }
}

/// A bounded draw lies in `[0, n)`.
pub proof fn lemma_bounded_value_below(s: u128, n: u128)
    requires
        n > 0,
    ensures
        bounded_value(s, n) < n,
{
    if is_power_of_two(n) {
        let v = next_state(s);
        let m = (n - 1) as u128;
        assert(v & m <= m) by (bit_vector);
    }
}

/// Every state that a draw leaves lies below the modulus.
pub proof fn lemma_bounded_state_below(s: u128, n: u128)
    ensures
        bounded_state(s, n) < MODULUS,
{
    if !is_power_of_two(n) {
        lemma_rejection_walk_below(s, acceptance_ceiling(n), RETRY_LIMIT as nat);
    }
}

proof fn lemma_rejection_walk_below(s: u128, ceiling: u128, fuel: nat)
    ensures
        rejection_walk(s, ceiling, fuel) < MODULUS,
    decreases fuel,
{
    if fuel > 0 {
        lemma_rejection_walk_below(next_state(s), ceiling, (fuel - 1) as nat);
    }
}

/// A power-of-two bound takes one draw and keeps its low bits: the value
/// is `raw & (n - 1)` for the raw draw from the same state, and the state
/// is that raw draw.
pub proof fn lemma_power_of_two_bound_masks_raw(s: u128, n: u128)
    requires
        is_power_of_two(n),
    ensures
        bounded_value(s, n) == next_state(s) & ((n - 1) as u128),
        bounded_state(s, n) == next_state(s),
{
}

/// For a bound `0 < n <= MODULUS` the accepted draws `0..=ceiling` are a
/// whole multiple of `n` in number.
pub proof fn lemma_acceptance_window_is_multiple(n: u128)
    requires
        0 < n <= MODULUS,
    ensures
        (acceptance_ceiling(n) + 1) % (n as int) == 0,
        acceptance_ceiling(n) + 1 == (n as int) * ((MODULUS as int) / (n as int)),
{
    let m = MODULUS as int;
    let k = n as int;
    vstd::arithmetic::div_mod::lemma_fundamental_div_mod(m, k);
    vstd::arithmetic::div_mod::lemma_mod_multiples_basic(m / k, k);
    assert(k * (m / k) == (m / k) * k) by (nonlinear_arith);
}

/// The accepted draws for the bound `n` that leave the residue `r`.
pub open spec fn accepted_with_residue(n: u128, r: int) -> Set<int> {
    Set::new(|v: int| 0 <= v <= acceptance_ceiling(n) && v % (n as int) == r)
}

/// For a bound `0 < n <= MODULUS` every residue `r < n` is left by exactly
/// `MODULUS / n` accepted draws: no value of a bounded draw is favoured.
pub proof fn lemma_residues_equally_accepted(n: u128, r: int)
    requires
        0 < n <= MODULUS,
        0 <= r < n,
    ensures
        accepted_with_residue(n, r).finite(),
        accepted_with_residue(n, r).len() == MODULUS / n,
{
    let k = (MODULUS as int) / (n as int);
    let ni = n as int;
    let ceiling = acceptance_ceiling(n) as int;
    lemma_acceptance_window_is_multiple(n);
    assert(ceiling + 1 == ni * k);
    let f = |j: int| r + ni * j;
    let range = vstd::set_lib::set_int_range(0, k);
    let target = accepted_with_residue(n, r);
    vstd::set_lib::lemma_int_range(0, k);
    assert forall|a: int, b: int| range.contains(a) && range.contains(b) && f(a) == f(b) implies a == b by {
        assert(ni * a == ni * b);
        vstd::arithmetic::mul::lemma_mul_equality_converse(ni, a, b);
    }
    assert(vstd::relations::injective_on(f, range));
    assert forall|v: int| range.map(f).contains(v) <==> target.contains(v) by {
        if range.map(f).contains(v) {
            let j = choose|j: int| range.contains(j) && f(j) == v;
            assert(0 <= ni * j) by (nonlinear_arith)
                requires ni > 0, j >= 0;
            assert(ni * j + r <= ni * k - 1) by (nonlinear_arith)
                requires 0 <= j < k, 0 <= r < ni;
            vstd::arithmetic::div_mod::lemma_fundamental_div_mod_converse(v, ni, j, r);
            assert(v == j * ni + r) by (nonlinear_arith)
                requires v == r + ni * j;
        }
        if target.contains(v) {
            vstd::arithmetic::div_mod::lemma_fundamental_div_mod(v, ni);
            let j = v / ni;
            assert(v == ni * j + r);
            assert(0 <= j && j < k) by (nonlinear_arith)
                requires v == ni * j + r, 0 <= v, v <= ni * k - 1, 0 <= r < ni;
            assert(range.contains(j));
            assert(f(j) == v);
        }
    }
    assert(range.map(f) =~= target);
    vstd::set_lib::lemma_map_size(range, target, f);
}

/// The values of successive bounded draws, bound by bound, from state `s`.
pub open spec fn draw_sequence(s: u128, bounds: Seq<u128>) -> Seq<u128>
    decreases bounds.len(),
{
    if bounds.len() == 0 {
        Seq::empty()
    } else {
        seq![bounded_value(s, bounds[0])] + draw_sequence(bounded_state(s, bounds[0]), bounds.drop_first())
    }
}

/// Two generators in the same state, asked for the same bounds in the same
/// order, give the same values one for one and end in the same state.
pub proof fn lemma_same_state_same_draws(a: u128, b: u128, bounds: Seq<u128>)
    requires
        a == b,
    ensures
        draw_sequence(a, bounds) == draw_sequence(b, bounds),
        draw_sequence(a, bounds).len() == bounds.len(),
    decreases bounds.len(),
{
    if bounds.len() > 0 {
        lemma_same_state_same_draws(bounded_state(a, bounds[0]), bounded_state(b, bounds[0]), bounds.drop_first());
    }
}

/// Why a draw was refused.
#[derive(Debug, Clone, Copy, PartialEq, Eq)]
pub enum RandError {
    /// An empty bound: `n <= 0` for a bounded draw, `max <= min` for a range.
    InvalidArgument,
}

/// Relies on `std::time::SystemTime::elapsed` from the Unix epoch: the
/// nanoseconds elapsed on the wall clock, or zero for a clock set before
/// the epoch. Nothing is known of the value.
#[verifier::external_body]
fn clock_nanos() -> (r: u128) {
    match std::time::UNIX_EPOCH.elapsed() {
        Ok(d) => d.as_nanos(),
        Err(_) => 0,
    }
}

/// A generator owned by one caller; every draw advances its state in place.
#[derive(Debug, Clone, Copy)]
pub struct Rng {
    seed: u128,
}

impl View for Rng {
    type V = u128;

    /// The state register.
    closed spec fn view(&self) -> u128 {
        self.seed
    }
}

impl Rng {
    /// A generator seeded from the wall clock.
    pub fn new() -> (r: Rng) {
        Rng { seed: clock_nanos() }
    }

    /// A generator whose state is `s`.
    pub fn with_seed(s: u128) -> (r: Rng)
        ensures
            r@ == s,
    {
        Rng { seed: s }
    }

    /// Overwrites the state; any value is accepted, the next draw reduces it.
    pub fn set_seed(&mut self, s: u128)
        ensures
            final(self)@ == s,
    {
        self.seed = s;
    }

    /// The current state.
    pub fn get_seed(self) -> (r: u128)
        ensures
            r == self@,
    {
        self.seed
    }

    /// Advances the state by the recurrence and returns the new state.
    pub fn rand(&mut self) -> (r: u128)
        ensures
            r == next_state(old(self)@),
            final(self)@ == r,
            r < MODULUS,
    {
        let s: u128 = self.seed % MODULUS;
        proof {
            let m = MODULUS as int;
            lemma_mul_mod_noop_right(MULTIPLIER as int, old(self)@ as int, m);
            lemma_add_mod_noop(MULTIPLIER * s, INCREMENT as int, m);
            lemma_add_mod_noop(MULTIPLIER * old(self)@, INCREMENT as int, m);
            lemma_mod_twice(INCREMENT as int, m);
        }
        assert(MULTIPLIER * s < 0x1_0000_0000_0000_0000) by (nonlinear_arith)
            requires s < MODULUS;
        self.seed = (MULTIPLIER * s + INCREMENT) % MODULUS;
        self.seed
    }

    /// Draws a value in `[0, n)`: masks one draw when `n` is a power of
    /// two, else draws until one falls at most `acceptance_ceiling(n)` and
    /// reduces it modulo `n`.
    pub(crate) fn bounded(&mut self, n: u128) -> (r: u128)
        requires
            n > 0,
        ensures
            r == bounded_value(old(self)@, n),
            final(self)@ == bounded_state(old(self)@, n),
            !is_power_of_two(n) ==> final(self)@ <= acceptance_ceiling(n),
            final(self)@ < MODULUS,
            r < n,
    {
        proof {
            lemma_bounded_value_below(old(self)@, n);
            lemma_bounded_state_below(old(self)@, n);
            if !is_power_of_two(n) {
                lemma_rejection_stops_on_first_accepted(old(self)@, n);
            }
        }
        if n & (n - 1) == 0 {
            return self.rand() & (n - 1);
        }
        let ceiling: u128 = if n > MODULUS {
            MODULUS - 1
        } else {
            MODULUS - 1 - MODULUS % n
        };
        let ghost start = old(self)@;
        let mut v: u128 = self.rand();
        let mut fuel: u128 = RETRY_LIMIT;
        while v > ceiling && fuel > 0
            invariant
                v == self@,
                ceiling == acceptance_ceiling(n),
                rejection_walk(start, ceiling, RETRY_LIMIT as nat) == (if v <= ceiling || fuel == 0 {
                    v
                } else {
                    rejection_walk(v, ceiling, (fuel - 1) as nat)
                }),
            decreases fuel,
        {
            v = self.rand();
            fuel = fuel - 1;
        }
        v % n
    }

    /// Draws a value in `[0, n)`; an empty bound `n == 0` is refused.
    pub fn randn(&mut self, n: u128) -> (r: Result<u128, RandError>)
        ensures
            n == 0 ==> r == Err::<u128, RandError>(RandError::InvalidArgument) && final(self)@ == old(self)@,
            n > 0 ==> r == Ok::<u128, RandError>(bounded_value(old(self)@, n)) && final(self)@ == bounded_state(old(self)@, n),
            n > 0 ==> final(self)@ < MODULUS,
            r matches Ok(v) ==> v < n,
    {
        if n == 0 {
            Err(RandError::InvalidArgument)
        } else {
            Ok(self.bounded(n))
        }
    }

    /// Draws a value in `[min, max)`: `min` plus a draw bounded by
    /// `max - min`; an empty range `max <= min` is refused.
    pub fn rand_range(&mut self, min: u128, max: u128) -> (r: Result<u128, RandError>)
        ensures
            max <= min ==> r == Err::<u128, RandError>(RandError::InvalidArgument) && final(self)@ == old(self)@,
            min < max ==> r == Ok::<u128, RandError>((min + bounded_value(old(self)@, (max - min) as u128)) as u128)
                && final(self)@ == bounded_state(old(self)@, (max - min) as u128),
            min < max ==> final(self)@ < MODULUS,
            r matches Ok(v) ==> min <= v < max,
    {
        if max <= min {
            Err(RandError::InvalidArgument)
        } else {
            Ok(min + self.bounded(max - min))
        }
    }

    /// Draws a value in `[min, max)` for the signed bounds `min < max`:
    /// `min` plus a draw bounded by the span `max - min`, which fits a
    /// `u128` even across the whole `i128` range.
    pub(crate) fn signed_range(&mut self, min: i128, max: i128) -> (r: i128)
        requires
            min < max,
        ensures
            r == min + bounded_value(old(self)@, (max - min) as u128),
            final(self)@ == bounded_state(old(self)@, (max - min) as u128),
            min <= r < max,
    {
        let span: u128 = if min >= 0 || max < 0 {
            (max - min) as u128
        } else {
            max as u128 + (-(min + 1)) as u128 + 1
        };
        let off: u128 = self.bounded(span);
        if off <= i128::MAX as u128 {
            min + off as i128
        } else {
            (min + i128::MAX) + (off - i128::MAX as u128) as i128
        }
    }

    /// Draws a point of the grid `[0, 2^bits)`: the top `bits` bits of one
    /// draw, which covers `[0, 1)` in steps of `2^-bits`.
    pub fn unit_grid(&mut self, bits: u32) -> (r: u128)
        requires
            bits <= 31,
        ensures
            r == next_state(old(self)@) >> ((31 - bits) as u128),
            final(self)@ == next_state(old(self)@),
            r < (1u128 << bits),
    {
        let v: u128 = self.rand();
        let shift: u128 = (31 - bits) as u128;
        assert(v >> shift < (1u128 << bits)) by (bit_vector)
            requires v < 0x8000_0000u128, shift == 31 - bits, bits <= 31;
        v >> shift
    }
}

/// A numeric type that a generator can draw: each type describes its value
/// range, and its draws are the generator's bounded draws shifted to it.
pub trait Randomable: Sized {
    /// The value as a mathematical integer.
    spec fn to_int(self) -> int;

    /// The smallest value of the type.
    spec fn min_int() -> int;

    /// The largest value of the type.
    spec fn max_int() -> int;

    /// A value in `[MIN, MAX)` of the type: `MIN` plus a draw bounded by
    /// `MAX - MIN`.
    fn rand(rng: &mut Rng) -> (r: Self)
        ensures
            r.to_int() == Self::min_int() + bounded_value(old(rng)@, (Self::max_int() - Self::min_int()) as u128),
            final(rng)@ == bounded_state(old(rng)@, (Self::max_int() - Self::min_int()) as u128),
            Self::min_int() <= r.to_int() < Self::max_int(),
    ;

    /// A value in `[0, n)`; a bound `n <= 0` is refused.
    fn randn(rng: &mut Rng, n: Self) -> (r: Result<Self, RandError>)
        ensures
            n.to_int() <= 0 ==> r == Err::<Self, RandError>(RandError::InvalidArgument) && final(rng)@ == old(rng)@,
            n.to_int() > 0 ==> r is Ok && r->Ok_0.to_int() == bounded_value(old(rng)@, n.to_int() as u128)
                && final(rng)@ == bounded_state(old(rng)@, n.to_int() as u128),
            r matches Ok(v) ==> 0 <= v.to_int() < n.to_int(),
    ;

    /// A value in `[min, max)`: `min` plus a draw bounded by `max - min`;
    /// an empty range `max <= min` is refused.
    fn rand_range(rng: &mut Rng, min: Self, max: Self) -> (r: Result<Self, RandError>)
        ensures
            max.to_int() <= min.to_int() ==> r == Err::<Self, RandError>(RandError::InvalidArgument) && final(rng)@ == old(rng)@,
            min.to_int() < max.to_int() ==> r is Ok
                && r->Ok_0.to_int() == min.to_int() + bounded_value(old(rng)@, (max.to_int() - min.to_int()) as u128)
                && final(rng)@ == bounded_state(old(rng)@, (max.to_int() - min.to_int()) as u128),
            r matches Ok(v) ==> min.to_int() <= v.to_int() < max.to_int(),
    ;

    /// The value itself.
    fn into_randomable(self) -> (r: Self)
        ensures
            r == self,
    ;
}

impl Randomable for u8 {
    open spec fn to_int(self) -> int {
        self as int
    }

    open spec fn min_int() -> int {
        0
    }

    open spec fn max_int() -> int {
        u8::MAX as int
    }

    fn rand(rng: &mut Rng) -> u8 {
        rng.bounded(u8::MAX as u128) as u8
    }

    fn randn(rng: &mut Rng, n: u8) -> Result<u8, RandError> {
        match rng.randn(n as u128) {
            Ok(v) => Ok(v as u8),
            Err(e) => Err(e),
        }
    }

    fn rand_range(rng: &mut Rng, min: u8, max: u8) -> Result<u8, RandError> {
        if max <= min {
            Err(RandError::InvalidArgument)
        } else {
            Ok(min + rng.bounded((max - min) as u128) as u8)
        }
    }

    fn into_randomable(self) -> u8 {
        self
    }
}

impl Randomable for u16 {
    open spec fn to_int(self) -> int {
        self as int
    }

    open spec fn min_int() -> int {
        0
    }

    open spec fn max_int() -> int {
        u16::MAX as int
    }

    fn rand(rng: &mut Rng) -> u16 {
        rng.bounded(u16::MAX as u128) as u16
    }

    fn randn(rng: &mut Rng, n: u16) -> Result<u16, RandError> {
        match rng.randn(n as u128) {
            Ok(v) => Ok(v as u16),
            Err(e) => Err(e),
        }
    }

    fn rand_range(rng: &mut Rng, min: u16, max: u16) -> Result<u16, RandError> {
        if max <= min {
            Err(RandError::InvalidArgument)
        } else {
            Ok(min + rng.bounded((max - min) as u128) as u16)
        }
    }

    fn into_randomable(self) -> u16 {
        self
    }
}

impl Randomable for u32 {
    open spec fn to_int(self) -> int {
        self as int
    }

    open spec fn min_int() -> int {
        0
    }

    open spec fn max_int() -> int {
        u32::MAX as int
    }

    fn rand(rng: &mut Rng) -> u32 {
        rng.bounded(u32::MAX as u128) as u32
    }

    fn randn(rng: &mut Rng, n: u32) -> Result<u32, RandError> {
        match rng.randn(n as u128) {
            Ok(v) => Ok(v as u32),
            Err(e) => Err(e),
        }
    }

    fn rand_range(rng: &mut Rng, min: u32, max: u32) -> Result<u32, RandError> {
        if max <= min {
            Err(RandError::InvalidArgument)
        } else {
            Ok(min + rng.bounded((max - min) as u128) as u32)
        }
    }

    fn into_randomable(self) -> u32 {
        self
    }
}

impl Randomable for u64 {
    open spec fn to_int(self) -> int {
        self as int
    }

    open spec fn min_int() -> int {
        0
    }

    open spec fn max_int() -> int {
        u64::MAX as int
    }

    fn rand(rng: &mut Rng) -> u64 {
        rng.bounded(u64::MAX as u128) as u64
    }

    fn randn(rng: &mut Rng, n: u64) -> Result<u64, RandError> {
        match rng.randn(n as u128) {
            Ok(v) => Ok(v as u64),
            Err(e) => Err(e),
        }
    }

    fn rand_range(rng: &mut Rng, min: u64, max: u64) -> Result<u64, RandError> {
        if max <= min {
            Err(RandError::InvalidArgument)
        } else {
            Ok(min + rng.bounded((max - min) as u128) as u64)
        }
    }

    fn into_randomable(self) -> u64 {
        self
    }
}

impl Randomable for usize {
    open spec fn to_int(self) -> int {
        self as int
    }

    open spec fn min_int() -> int {
        0
    }

    open spec fn max_int() -> int {
        usize::MAX as int
    }

    fn rand(rng: &mut Rng) -> usize {
        rng.bounded(usize::MAX as u128) as usize
    }

    fn randn(rng: &mut Rng, n: usize) -> Result<usize, RandError> {
        match rng.randn(n as u128) {
            Ok(v) => Ok(v as usize),
            Err(e) => Err(e),
        }
    }

    fn rand_range(rng: &mut Rng, min: usize, max: usize) -> Result<usize, RandError> {
        if max <= min {
            Err(RandError::InvalidArgument)
        } else {
            Ok(min + rng.bounded((max - min) as u128) as usize)
        }
    }

    fn into_randomable(self) -> usize {
        self
    }
}

impl Randomable for i8 {
    open spec fn to_int(self) -> int {
        self as int
    }

    open spec fn min_int() -> int {
        i8::MIN as int
    }

    open spec fn max_int() -> int {
        i8::MAX as int
    }

    fn rand(rng: &mut Rng) -> i8 {
        rng.signed_range(i8::MIN as i128, i8::MAX as i128) as i8
    }

    fn randn(rng: &mut Rng, n: i8) -> Result<i8, RandError> {
        if n <= 0 {
            Err(RandError::InvalidArgument)
        } else {
            Ok(rng.bounded(n as u128) as i8)
        }
    }

    fn rand_range(rng: &mut Rng, min: i8, max: i8) -> Result<i8, RandError> {
        if max <= min {
            Err(RandError::InvalidArgument)
        } else {
            Ok(rng.signed_range(min as i128, max as i128) as i8)
        }
    }

    fn into_randomable(self) -> i8 {
        self
    }
}

impl Randomable for i16 {
    open spec fn to_int(self) -> int {
        self as int
    }

    open spec fn min_int() -> int {
        i16::MIN as int
    }

    open spec fn max_int() -> int {
        i16::MAX as int
    }

    fn rand(rng: &mut Rng) -> i16 {
        rng.signed_range(i16::MIN as i128, i16::MAX as i128) as i16
    }

    fn randn(rng: &mut Rng, n: i16) -> Result<i16, RandError> {
        if n <= 0 {
            Err(RandError::InvalidArgument)
        } else {
            Ok(rng.bounded(n as u128) as i16)
        }
    }

    fn rand_range(rng: &mut Rng, min: i16, max: i16) -> Result<i16, RandError> {
        if max <= min {
            Err(RandError::InvalidArgument)
        } else {
            Ok(rng.signed_range(min as i128, max as i128) as i16)
        }
    }

    fn into_randomable(self) -> i16 {
        self
    }
}

impl Randomable for i32 {
    open spec fn to_int(self) -> int {
        self as int
    }

    open spec fn min_int() -> int {
        i32::MIN as int
    }

    open spec fn max_int() -> int {
        i32::MAX as int
    }

    fn rand(rng: &mut Rng) -> i32 {
        rng.signed_range(i32::MIN as i128, i32::MAX as i128) as i32
    }

    fn randn(rng: &mut Rng, n: i32) -> Result<i32, RandError> {
        if n <= 0 {
            Err(RandError::InvalidArgument)
        } else {
            Ok(rng.bounded(n as u128) as i32)
        }
    }

    fn rand_range(rng: &mut Rng, min: i32, max: i32) -> Result<i32, RandError> {
        if max <= min {
            Err(RandError::InvalidArgument)
        } else {
            Ok(rng.signed_range(min as i128, max as i128) as i32)
        }
    }

    fn into_randomable(self) -> i32 {
        self
    }
}

impl Randomable for i64 {
    open spec fn to_int(self) -> int {
        self as int
    }

    open spec fn min_int() -> int {
        i64::MIN as int
    }

    open spec fn max_int() -> int {
        i64::MAX as int
    }

    fn rand(rng: &mut Rng) -> i64 {
        rng.signed_range(i64::MIN as i128, i64::MAX as i128) as i64
    }

    fn randn(rng: &mut Rng, n: i64) -> Result<i64, RandError> {
        if n <= 0 {
            Err(RandError::InvalidArgument)
        } else {
            Ok(rng.bounded(n as u128) as i64)
        }
    }

    fn rand_range(rng: &mut Rng, min: i64, max: i64) -> Result<i64, RandError> {
        if max <= min {
            Err(RandError::InvalidArgument)
        } else {
            Ok(rng.signed_range(min as i128, max as i128) as i64)
        }
    }

    fn into_randomable(self) -> i64 {
        self
    }
}

impl Randomable for isize {
    open spec fn to_int(self) -> int {
        self as int
    }

    open spec fn min_int() -> int {
        isize::MIN as int
    }

    open spec fn max_int() -> int {
        isize::MAX as int
    }

    fn rand(rng: &mut Rng) -> isize {
        rng.signed_range(isize::MIN as i128, isize::MAX as i128) as isize
    }

    fn randn(rng: &mut Rng, n: isize) -> Result<isize, RandError> {
        if n <= 0 {
            Err(RandError::InvalidArgument)
        } else {
            Ok(rng.bounded(n as u128) as isize)
        }
    }

    fn rand_range(rng: &mut Rng, min: isize, max: isize) -> Result<isize, RandError> {
        if max <= min {
            Err(RandError::InvalidArgument)
        } else {
            Ok(rng.signed_range(min as i128, max as i128) as isize)
        }
    }

    fn into_randomable(self) -> isize {
        self
    }
}

impl Randomable for u128 {
    open spec fn to_int(self) -> int {
        self as int
    }

    open spec fn min_int() -> int {
        0
    }

    open spec fn max_int() -> int {
        u128::MAX as int
    }

    fn rand(rng: &mut Rng) -> u128 {
        rng.bounded(u128::MAX)
    }

    fn randn(rng: &mut Rng, n: u128) -> Result<u128, RandError> {
        rng.randn(n)
    }

    fn rand_range(rng: &mut Rng, min: u128, max: u128) -> Result<u128, RandError> {
        if max <= min {
            Err(RandError::InvalidArgument)
        } else {
            Ok(min + rng.bounded(max - min))
        }
    }

    fn into_randomable(self) -> u128 {
        self
    }
}

impl Randomable for i128 {
    open spec fn to_int(self) -> int {
        self as int
    }

    open spec fn min_int() -> int {
        i128::MIN as int
    }

    open spec fn max_int() -> int {
        i128::MAX as int
    }

    fn rand(rng: &mut Rng) -> i128 {
        rng.signed_range(i128::MIN, i128::MAX)
    }

    fn randn(rng: &mut Rng, n: i128) -> Result<i128, RandError> {
        if n <= 0 {
            Err(RandError::InvalidArgument)
        } else {
            Ok(rng.bounded(n as u128) as i128)
        }
    }

    fn rand_range(rng: &mut Rng, min: i128, max: i128) -> Result<i128, RandError> {
        if max <= min {
            Err(RandError::InvalidArgument)
        } else {
            Ok(rng.signed_range(min, max))
        }
    }

    fn into_randomable(self) -> i128 {
        self
    }
}

} // verus!
