use vstd::prelude::*;
use rand::distributions::Distribution;
use rand::SeedableRng;
use crate::codec::spec_required_len;

verus! {

#[verifier::external_type_specification]
#[verifier::external_body]
pub struct ExInstant(std::time::Instant);

/// One timed run: how many values were handled, the byte width of the
/// values it was made for, and the wall-clock time the timed pass took.
#[derive(Debug, Clone, Copy, PartialEq, Eq)]
pub struct Measurement {
    pub ops: usize,
    pub bytes: usize,
    pub nanos: u128,
}

/// Relies on std::time::Instant::now: a reading of the monotonic clock;
/// nothing is known of its value.
#[verifier::external_body]
pub(crate) fn clock_now() -> (r: std::time::Instant) {
    std::time::Instant::now()
}

/// Relies on std::time::Instant::saturating_duration_since, read out in whole
/// nanoseconds: the time from `earlier` to `later`, zero if `later` is not
/// after `earlier`; nothing more is known of its value.
#[verifier::external_body]
pub(crate) fn nanos_between(earlier: &std::time::Instant, later: &std::time::Instant) -> (r: u128) {
    later.saturating_duration_since(*earlier).as_nanos()
}

/// Every byte of the seed that test vectors are drawn with.
pub const SEED_BYTE: u8 = 0xab;

/// The bound below which `generate_array` draws values for `max_bytes`: the
/// largest value whose encoding takes at most `max_bytes` bytes, or
/// `u64::MAX` from nine bytes on.
pub open spec fn sample_limit(max_bytes: nat) -> u64 {
    if max_bytes < 9 {
        u64::MAX >> ((64 - 7 * max_bytes) as u64)
    } else {
        u64::MAX
    }
}

/// Relies on rand's StdRng::from_seed, Uniform::from and Distribution::sample:
/// `len` draws from the half-open range `[low, high)` by a generator seeded
/// with `seed` (Uniform::new panics unless `low < high`).
#[verifier::external_body]
fn uniform_draws(seed: [u8; 32], len: usize, low: u64, high: u64) -> (r: Vec<u64>)
    requires
        low < high,
    ensures
        r@.len() == len,
        forall|i: int| 0 <= i < len ==> low <= #[trigger] r@[i] < high,
{
    let mut rng = rand::rngs::StdRng::from_seed(seed);
    let between = rand::distributions::Uniform::from(low..high);
    (0..len).map(|_| between.sample(&mut rng)).collect()
}

/// Draws `len` values in `1..sample_limit(max_bytes)` from a fixed seed, so
/// that each one encodes in at most `max_bytes` bytes.
pub fn generate_array(len: usize, max_bytes: usize) -> (r: Vec<u64>)
    requires
        max_bytes >= 1,
    ensures
        r@.len() == len,
        forall|i: int| 0 <= i < len ==> 1 <= #[trigger] r@[i] < sample_limit(max_bytes as nat),
        forall|i: int| 0 <= i < len ==> spec_required_len(#[trigger] r@[i]) <= max_bytes,
{
    let seed: [u8; 32] = [SEED_BYTE; 32];
    let mut max_value: u64 = u64::MAX;
    if max_bytes < 9 {
        max_value = max_value >> (64 - 7 * max_bytes) as u64;
        assert(1 <= max_bytes < 9 ==> u64::MAX >> ((64 - 7 * max_bytes) as u64) >= 127) by (bit_vector);
    }
    let r = uniform_draws(seed, len, 1, max_value);
    proof {
        assert forall|i: int| 0 <= i < len implies spec_required_len(#[trigger] r@[i]) <= max_bytes by {
            if max_bytes < 9 {
                let m = max_bytes as u64;
                let v = r@[i];
                assert(1 <= m < 9 && v < u64::MAX >> ((64 - 7 * m) as u64) ==> v < 1u64 << ((7
                    * m) as u64)) by (bit_vector);
            }
        }
    }
    r
}

} // verus!
