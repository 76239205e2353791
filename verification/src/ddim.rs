//! The integer side of the DDIM scheduler: which of the trained timesteps a run
//! visits, which noise level each step reads, and the seeded generator the
//! starting noise is drawn from.
use vstd::prelude::*;

verus! {

/// How many steps the model was trained over.
pub const TRAIN_STEPS: usize = 1000;

/// `steps_offset: 1` in the model's scheduler config: every timestep is shifted
/// up by one, a quirk of the original release that the weights now expect.
pub const STEPS_OFFSET: usize = 1;

/// The number of denoising passes actually run: at least one, at most one per
/// trained step.
pub open spec fn clamped_steps(steps: int) -> int {
    if steps < 1 {
        1
    } else if steps > TRAIN_STEPS {
        TRAIN_STEPS as int
    } else {
        steps
    }
}

/// The gap between visited timesteps.
pub open spec fn schedule_stride(steps: int) -> int {
    TRAIN_STEPS as int / clamped_steps(steps)
}

/// The `i`th timestep visited, noisiest first ("leading" spacing: evenly spaced
/// from 0, shifted by the offset, walked backwards).
pub open spec fn timestep_at(steps: int, i: int) -> int {
    (clamped_steps(steps) - 1 - i) * schedule_stride(steps) + STEPS_OFFSET as int
}

/// The timesteps a run of `steps` passes visits, with the stride between them.
pub fn schedule(steps: usize) -> (r: (usize, Vec<usize>))
    ensures
        r.0 == schedule_stride(steps as int),
        r.1@.len() == clamped_steps(steps as int),
        forall|i: int| 0 <= i < r.1@.len() ==> r.1@[i] == timestep_at(steps as int, i),
{
    let n: usize = if steps < 1 {
        1
    } else if steps > TRAIN_STEPS {
        TRAIN_STEPS
    } else {
        steps
    };
    let stride: usize = TRAIN_STEPS / n;
    let mut timesteps: Vec<usize> = Vec::new();
    let mut i: usize = 0;
    while i < n
        invariant
            1 <= n <= TRAIN_STEPS,
            n == clamped_steps(steps as int),
            stride == schedule_stride(steps as int),
            i <= n,
            timesteps@.len() == i,
            forall|k: int| 0 <= k < i ==> timesteps@[k] == timestep_at(steps as int, k),
        decreases n - i,
    {
        assert((n - 1 - i) * stride <= n * stride <= TRAIN_STEPS) by (nonlinear_arith)
            requires
                i < n,
                stride == TRAIN_STEPS as int / n as int,
                n >= 1,
        ;
        timesteps.push((n - 1 - i) * stride + STEPS_OFFSET);
        i = i + 1;
    }
    (stride, timesteps)
}

/// The visited timesteps fall strictly, end at the first trained step past the
/// offset, and never leave the trained range.
pub proof fn lemma_timesteps_walk_down_to_the_first(steps: int)
    ensures
        timestep_at(steps, clamped_steps(steps) - 1) == STEPS_OFFSET,
        forall|i: int, j: int|
            0 <= i < j < clamped_steps(steps) ==> timestep_at(steps, j) < timestep_at(steps, i),
        forall|i: int|
            0 <= i < clamped_steps(steps) ==> 1 <= #[trigger] timestep_at(steps, i) <= TRAIN_STEPS,
{
    let n = clamped_steps(steps);
    let s = schedule_stride(steps);
    assert(s >= 1 && n * s <= TRAIN_STEPS) by (nonlinear_arith)
        requires
            1 <= n <= TRAIN_STEPS,
            s == TRAIN_STEPS as int / n,
    ;
    assert forall|i: int, j: int| 0 <= i < j < n implies timestep_at(steps, j) < timestep_at(steps, i) by {
        assert((n - 1 - j) * s < (n - 1 - i) * s) by (nonlinear_arith)
            requires
                i < j,
                s >= 1,
        ;
    }
    assert forall|i: int| 0 <= i < n implies 1 <= #[trigger] timestep_at(steps, i) <= TRAIN_STEPS by {
        assert(0 <= (n - 1 - i) * s <= (n - 1) * s) by (nonlinear_arith)
            requires
                0 <= i < n,
                s >= 1,
        ;
        assert((n - 1) * s == n * s - s) by (nonlinear_arith);
    }
}

/// Which entry of the noise-level table a timestep reads: past the last trained
/// step, the last one.
pub open spec fn level_index(t: int) -> int {
    if t < TRAIN_STEPS - 1 {
        t
    } else {
        TRAIN_STEPS - 1
    }
}

/// The table entry for the step before `t`. There is none before the start of
/// the schedule; the model's config does not set it to one, so the first entry
/// stands in.
pub fn previous_level_index(t: usize, stride: usize) -> (r: usize)
    ensures
        r == (if t >= stride {
            level_index(t - stride)
        } else {
            0
        }),
        r < TRAIN_STEPS,
{
    match t.checked_sub(stride) {
        Some(previous) => if previous < TRAIN_STEPS - 1 {
            previous
        } else {
            TRAIN_STEPS - 1
        },
        None => 0,
    }
}

/// The odd constant SplitMix64 advances by; it also keeps a zero seed off the
/// zero state.
pub const GOLDEN_GAMMA: u64 = 0x9E37_79B9_7F4A_7C15;

/// `x * y`, wrapped to 64 bits.
pub open spec fn wrapped_mul(x: u64, y: u64) -> u64 {
    ((x as nat * y as nat) % 0x1_0000_0000_0000_0000nat) as u64
}

/// One SplitMix64 advance of the state.
pub open spec fn advanced(state: u64) -> u64 {
    ((state as nat + GOLDEN_GAMMA as nat) % 0x1_0000_0000_0000_0000nat) as u64
}

/// SplitMix64's output for a state.
pub open spec fn mixed(z: u64) -> u64 {
    let a = wrapped_mul(z ^ (z >> 30u64), 0xBF58_476D_1CE4_E5B9);
    let b = wrapped_mul(a ^ (a >> 27u64), 0x94D0_49BB_1331_11EB);
    b ^ (b >> 31u64)
}

/// Deterministic noise, so the same photo and prompt give the same picture twice.
pub struct Noise {
    state: u64,
}

impl View for Noise {
    type V = u64;

    closed spec fn view(&self) -> u64 {
        self.state
    }
}

/// The state a generator seeded with `seed` has after `k` draws.
pub open spec fn state_after(seed: u64, k: nat) -> u64
    decreases k,
{
    if k == 0 {
        seed ^ GOLDEN_GAMMA
    } else {
        advanced(state_after(seed, (k - 1) as nat))
    }
}

impl Noise {
    pub fn seeded(seed: u64) -> (n: Noise)
        ensures
            n@ == state_after(seed, 0),
    {
        Noise { state: seed ^ GOLDEN_GAMMA }
    }

    /// The next 64 random bits, from SplitMix64.
    pub fn next_bits(&mut self) -> (z: u64)
        ensures
            final(self)@ == advanced(old(self)@),
            z == mixed(final(self)@),
    {
        self.state = self.state.wrapping_add(GOLDEN_GAMMA);
        let mut z = self.state;
        z = (z ^ (z >> 30)).wrapping_mul(0xBF58_476D_1CE4_E5B9);
        z = (z ^ (z >> 27)).wrapping_mul(0x94D0_49BB_1331_11EB);
        z ^ (z >> 31)
    }
}

/// Two different seeds never meet: after any number of draws their generators
/// are in different states.
pub proof fn lemma_different_seeds_never_share_a_state(a: u64, b: u64, k: nat)
    requires
        a != b,
    ensures
        state_after(a, k) != state_after(b, k),
    decreases k,
{
    if k == 0 {
        assert((a ^ GOLDEN_GAMMA) != (b ^ GOLDEN_GAMMA)) by (bit_vector)
            requires
                a != b,
        ;
    } else {
        lemma_different_seeds_never_share_a_state(a, b, (k - 1) as nat);
        let x = state_after(a, (k - 1) as nat);
        let y = state_after(b, (k - 1) as nat);
        assert(advanced(x) != advanced(y)) by (nonlinear_arith)
            requires
                x != y,
                advanced(x) == ((x as nat + GOLDEN_GAMMA as nat) % 0x1_0000_0000_0000_0000nat) as u64,
                advanced(y) == ((y as nat + GOLDEN_GAMMA as nat) % 0x1_0000_0000_0000_0000nat) as u64,
        ;
    }
}

} // verus!
