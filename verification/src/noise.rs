use vstd::prelude::*;
use crate::fixed::{floor_div, Fixed};
use crate::vector::Vec2;

verus! {

/// The product of two words, cut to a word.
pub open spec fn spec_mul_mod(a: u64, b: u64) -> u64 {
    ((a * b) % 0x1_0000_0000_0000_0000) as u64
}

/// The sum of two words, cut to a word.
pub open spec fn spec_add_mod(a: u64, b: u64) -> u64 {
    ((a + b) % 0x1_0000_0000_0000_0000) as u64
}

/// Scrambles a word, so that words that differ a little give words that differ much.
pub open spec fn spec_mix(h: u64) -> u64 {
    let a = h ^ (h >> 30);
    let b = spec_mul_mod(a, 0xbf58_476d_1ce4_e5b9);
    let c = b ^ (b >> 27);
    let d = spec_mul_mod(c, 0x94d0_49bb_1331_11eb);
    d ^ (d >> 31)
}

/// A signed number as a word: the range is shifted to start at zero.
pub open spec fn word_of(i: int) -> u64 {
    (i + 0x8000_0000_0000_0000) as u64
}

/// The value that the seed gives to a corner of the lattice: between nothing and one whole.
pub open spec fn lattice(seed: u64, ix: int, iy: int) -> int {
    (spec_mix(spec_add_mod(spec_mix(spec_add_mod(spec_mix(seed), word_of(ix))), word_of(iy))) % 1_000_001) as int
}

/// The weight of the far corner for a point `t` millionths of the way to it.
/// It rises from nothing to one whole, and is flat at both ends.
pub open spec fn smooth(t: int) -> int {
    (((t * t) / 1_000_000) * (3_000_000 - 2 * t)) / 1_000_000
}

/// The value `t` millionths of the way from `a` to `b`.
pub open spec fn lerp(a: int, b: int, t: int) -> int {
    a + ((b - a) * t) / 1_000_000
}

/// One layer of noise at a point: the values at the four corners of the
/// point's lattice cell, blended by how near the point is to each.
pub open spec fn base(seed: u64, p: Vec2) -> int {
    let ix = (p.x.raw as int) / 1_000_000;
    let iy = (p.y.raw as int) / 1_000_000;
    let sx = smooth((p.x.raw as int) % 1_000_000);
    let sy = smooth((p.y.raw as int) % 1_000_000);
    let top = lerp(lattice(seed, ix, iy), lattice(seed, ix + 1, iy), sx);
    let bottom = lerp(lattice(seed, ix, iy + 1), lattice(seed, ix + 1, iy + 1), sx);
    lerp(top, bottom, sy)
}

/// The weight of the far corner lies between nothing and one whole.
pub proof fn lemma_smooth_bounds(t: int)
    requires
        0 <= t <= 1_000_000,
    ensures
        0 <= smooth(t) <= 1_000_000,
{
    let q = (t * t) / 1_000_000;
    let m = 3_000_000 - 2 * t;
    let a = 1_000_000 - t;
    assert(0 <= t * t) by (nonlinear_arith);
    assert(0 <= q && q * 1_000_000 <= t * t) by (nonlinear_arith)
        requires
            q == (t * t) / 1_000_000,
            0 <= t * t,
    ;
    assert(0 <= a * a) by (nonlinear_arith);
    assert(0 <= (a * a) * (1_000_000 + 2 * t)) by (nonlinear_arith)
        requires
            0 <= a * a,
            0 <= t,
    ;
    assert((a * a) * (1_000_000 + 2 * t) == 1_000_000_000_000_000_000 - (t * t) * m)
        by (nonlinear_arith)
        requires
            a == 1_000_000 - t,
            m == 3_000_000 - 2 * t,
    ;
    assert((q * 1_000_000) * m <= (t * t) * m) by (nonlinear_arith)
        requires
            q * 1_000_000 <= t * t,
            m >= 0,
    ;
    assert(q * m <= 1_000_000_000_000) by (nonlinear_arith)
        requires
            (q * 1_000_000) * m <= 1_000_000_000_000_000_000,
    ;
    assert(0 <= q * m) by (nonlinear_arith)
        requires
            0 <= q,
            0 <= m,
    ;
    assert(0 <= (q * m) / 1_000_000 <= 1_000_000) by (nonlinear_arith)
        requires
            0 <= q * m <= 1_000_000_000_000,
    ;
}

/// A value between two values lies between them.
pub proof fn lemma_lerp_bounds(a: int, b: int, t: int)
    requires
        0 <= t <= 1_000_000,
    ensures
        a <= b ==> a <= lerp(a, b, t) <= b,
        b <= a ==> b <= lerp(a, b, t) <= a,
{
    let d = b - a;
    if d >= 0 {
        assert(0 <= d * t <= d * 1_000_000) by (nonlinear_arith)
            requires
                0 <= d,
                0 <= t <= 1_000_000,
        ;
        assert(0 <= (d * t) / 1_000_000 <= d) by (nonlinear_arith)
            requires
                0 <= d * t <= d * 1_000_000,
        ;
    } else {
        assert(d * 1_000_000 <= d * t <= 0) by (nonlinear_arith)
            requires
                d < 0,
                0 <= t <= 1_000_000,
        ;
        assert(d <= (d * t) / 1_000_000 <= 0) by (nonlinear_arith)
            requires
                d * 1_000_000 <= d * t <= 0,
        ;
    }
}

/// One layer of noise stays between nothing and one whole.
pub proof fn lemma_base_bounds(seed: u64, p: Vec2)
    ensures
        0 <= base(seed, p) <= 1_000_000,
{
    let ix = (p.x.raw as int) / 1_000_000;
    let iy = (p.y.raw as int) / 1_000_000;
    let sx = smooth((p.x.raw as int) % 1_000_000);
    let sy = smooth((p.y.raw as int) % 1_000_000);
    lemma_smooth_bounds((p.x.raw as int) % 1_000_000);
    lemma_smooth_bounds((p.y.raw as int) % 1_000_000);
    let top = lerp(lattice(seed, ix, iy), lattice(seed, ix + 1, iy), sx);
    let bottom = lerp(lattice(seed, ix, iy + 1), lattice(seed, ix + 1, iy + 1), sx);
    lemma_lerp_bounds(lattice(seed, ix, iy), lattice(seed, ix + 1, iy), sx);
    lemma_lerp_bounds(lattice(seed, ix, iy + 1), lattice(seed, ix + 1, iy + 1), sx);
    lemma_lerp_bounds(top, bottom, sy);
}

/// The product of two words, cut to a word.
#[verifier::when_used_as_spec(spec_mul_mod)]
pub fn mul_mod(a: u64, b: u64) -> (r: u64)
    ensures
        r == spec_mul_mod(a, b),
{
    assert(a * b <= 0xffff_ffff_ffff_ffff * 0xffff_ffff_ffff_ffff) by (nonlinear_arith)
        requires
            0 <= a <= 0xffff_ffff_ffff_ffff,
            0 <= b <= 0xffff_ffff_ffff_ffff,
    ;
    let wide: u128 = (a as u128) * (b as u128);
    (wide % 0x1_0000_0000_0000_0000u128) as u64
}

/// The sum of two words, cut to a word.
#[verifier::when_used_as_spec(spec_add_mod)]
pub fn add_mod(a: u64, b: u64) -> (r: u64)
    ensures
        r == spec_add_mod(a, b),
{
    let wide: u128 = (a as u128) + (b as u128);
    (wide % 0x1_0000_0000_0000_0000u128) as u64
}

/// Scrambles a word.
#[verifier::when_used_as_spec(spec_mix)]
pub fn mix(h: u64) -> (r: u64)
    ensures
        r == spec_mix(h),
{
    let a: u64 = h ^ (h >> 30);
    let b: u64 = mul_mod(a, 0xbf58_476d_1ce4_e5b9);
    let c: u64 = b ^ (b >> 27);
    let d: u64 = mul_mod(c, 0x94d0_49bb_1331_11eb);
    d ^ (d >> 31)
}

fn word_of_exec(i: i128) -> (r: u64)
    requires
        -0x8000_0000_0000_0000 <= i <= 0x7fff_ffff_ffff_ffff,
    ensures
        r == word_of(i as int),
{
    (i + 0x8000_0000_0000_0000i128) as u64
}

fn lattice_exec(seed: u64, ix: i128, iy: i128) -> (r: i64)
    requires
        -0x8000_0000_0000_0000 <= ix <= 0x7fff_ffff_ffff_ffff,
        -0x8000_0000_0000_0000 <= iy <= 0x7fff_ffff_ffff_ffff,
    ensures
        r == lattice(seed, ix as int, iy as int),
        0 <= r <= 1_000_000,
{
    let a: u64 = mix(add_mod(mix(seed), word_of_exec(ix)));
    let b: u64 = mix(add_mod(a, word_of_exec(iy)));
    (b % 1_000_001) as i64
}

fn smooth_exec(t: i64) -> (r: i64)
    requires
        0 <= t < 1_000_000,
    ensures
        r == smooth(t as int),
        0 <= r <= 1_000_000,
{
    proof {
        lemma_smooth_bounds(t as int);
        assert(0 <= t * t <= 1_000_000_000_000) by (nonlinear_arith)
            requires
                0 <= t <= 1_000_000,
        ;
    }
    let q: i128 = floor_div((t as i128) * (t as i128), 1_000_000);
    assert(0 <= q <= 1_000_000) by (nonlinear_arith)
        requires
            q == (t * t) / 1_000_000,
            0 <= t * t <= 1_000_000_000_000,
    ;
    assert(0 <= q * (3_000_000 - 2 * t) <= 3_000_000_000_000) by (nonlinear_arith)
        requires
            0 <= q <= 1_000_000,
            0 <= t <= 1_000_000,
    ;
    floor_div(q * (3_000_000 - 2 * (t as i128)), 1_000_000) as i64
}

fn lerp_exec(a: i64, b: i64, t: i64) -> (r: i64)
    requires
        0 <= a <= 1_000_000,
        0 <= b <= 1_000_000,
        0 <= t <= 1_000_000,
    ensures
        r == lerp(a as int, b as int, t as int),
        0 <= r <= 1_000_000,
{
    proof {
        lemma_lerp_bounds(a as int, b as int, t as int);
        assert(-1_000_000_000_000 <= (b - a) * t <= 1_000_000_000_000) by (nonlinear_arith)
            requires
                -1_000_000 <= b - a <= 1_000_000,
                0 <= t <= 1_000_000,
        ;
    }
    let step: i128 = floor_div(((b - a) as i128) * (t as i128), 1_000_000);
    (a as i128 + step) as i64
}

fn base_exec(seed: u64, p: Vec2) -> (r: i64)
    ensures
        r == base(seed, p),
        0 <= r <= 1_000_000,
{
    let ix: i128 = floor_div(p.x.raw as i128, 1_000_000);
    let iy: i128 = floor_div(p.y.raw as i128, 1_000_000);
    let fx: i64 = (p.x.raw as i128 - ix * 1_000_000) as i64;
    let fy: i64 = (p.y.raw as i128 - iy * 1_000_000) as i64;
    let sx: i64 = smooth_exec(fx);
    let sy: i64 = smooth_exec(fy);
    let top: i64 = lerp_exec(lattice_exec(seed, ix, iy), lattice_exec(seed, ix + 1, iy), sx);
    let bottom: i64 = lerp_exec(
        lattice_exec(seed, ix, iy + 1),
        lattice_exec(seed, ix + 1, iy + 1),
        sx,
    );
    lerp_exec(top, bottom, sy)
}

/// How the layers of a noise field are laid over each other.
#[derive(Debug, Clone, Copy, PartialEq, Eq, Structural)]
pub struct MultiNoiseProperties {
    /// One end of the range of the samples.
    pub min_value: Fixed,
    /// The other end of the range of the samples.
    pub max_value: Fixed,
    /// How many cells one lattice cell of the first layer spans.
    pub scale: Fixed,
    /// The number of layers.
    pub octaves: usize,
    /// How much finer each layer is than the one before.
    pub lacunarity: Fixed,
    /// How much each layer weighs, compared with the one before.
    pub persistance: Fixed,
}

/// A field of layered coherent noise: a seed and a point give a sample, always the same.
#[derive(Debug, Clone, Copy, PartialEq, Eq, Structural)]
pub struct MultiNoise {
    pub seed: u64,
    pub properties: MultiNoiseProperties,
}

/// The running state while the layers are summed.
pub struct Layers {
    /// The weighted sum of the layers so far.
    pub value: Fixed,
    /// The sum of the weights so far.
    pub total: Fixed,
    /// The fineness of the next layer.
    pub frequency: Fixed,
    /// The weight of the next layer.
    pub amplitude: Fixed,
}

impl MultiNoise {
    /// The state after the first `k` layers at the point `p`.
    pub open spec fn layers(&self, p: Vec2, k: nat) -> Layers
        decreases k,
    {
        if k == 0 {
            Layers {
                value: Fixed { raw: 0 },
                total: Fixed { raw: 0 },
                frequency: Fixed { raw: 1_000_000 },
                amplitude: Fixed { raw: 1_000_000 },
            }
        } else {
            let prev = self.layers(p, (k - 1) as nat);
            let at = p.shrink(self.properties.scale).scale(prev.frequency);
            let sample = Fixed { raw: base(spec_add_mod(self.seed, (k - 1) as u64), at) as i64 };
            Layers {
                value: prev.value.plus(sample.times(prev.amplitude)),
                total: prev.total.plus(prev.amplitude.abs()),
                frequency: prev.frequency.times(self.properties.lacunarity),
                amplitude: prev.amplitude.times(self.properties.persistance),
            }
        }
    }

    /// The lower end of the range of the samples.
    pub open spec fn low(&self) -> Fixed {
        self.properties.min_value.min(self.properties.max_value)
    }

    /// The upper end of the range of the samples.
    pub open spec fn high(&self) -> Fixed {
        self.properties.min_value.max(self.properties.max_value)
    }

    /// The sample at the point `p`: the weighted mean of the layers, carried
    /// from the range between nothing and one whole to the range of the field.
    pub open spec fn spec_get(&self, p: Vec2) -> Fixed {
        let sum = self.layers(p, self.properties.octaves as nat);
        let share = sum.value.over(sum.total).max(Fixed { raw: 0 }).min(Fixed { raw: 1_000_000 });
        let span = self.properties.max_value.minus(self.properties.min_value);
        self.properties.min_value.plus(span.times(share)).max(self.low()).min(self.high())
    }

    /// The field with this seed and these layers.
    pub fn new(seed: u64, properties: &MultiNoiseProperties) -> (r: Self)
        ensures
            r.seed == seed,
            r.properties == *properties,
    {
        MultiNoise { seed, properties: *properties }
    }

    /// Gives the field another seed; the layers stay.
    pub fn set_seed(&mut self, seed: u64)
        ensures
            final(self).seed == seed,
            final(self).properties == old(self).properties,
    {
        self.seed = seed;
    }

    /// The sample at the point `p`. It lies in the range of the field, and the
    /// same seed, properties and point always give the same sample.
    #[verifier::when_used_as_spec(spec_get)]
    pub fn get(&self, p: Vec2) -> (r: Fixed)
        ensures
            r == self.spec_get(p),
            self.low().raw <= r.raw <= self.high().raw,
    {
        let at_first = p.shrink(self.properties.scale);
        let mut sum = Layers {
            value: Fixed { raw: 0 },
            total: Fixed { raw: 0 },
            frequency: Fixed { raw: 1_000_000 },
            amplitude: Fixed { raw: 1_000_000 },
        };
        let mut k: usize = 0;
        while k < self.properties.octaves
            invariant
                k <= self.properties.octaves,
                sum == self.layers(p, k as nat),
                at_first == p.shrink(self.properties.scale),
            decreases self.properties.octaves - k,
        {
            let at = at_first.scale(sum.frequency);
            let sample = Fixed { raw: base_exec(add_mod(self.seed, k as u64), at) };
            sum = Layers {
                value: sum.value.plus(sample.times(sum.amplitude)),
                total: sum.total.plus(sum.amplitude.abs()),
                frequency: sum.frequency.times(self.properties.lacunarity),
                amplitude: sum.amplitude.times(self.properties.persistance),
            };
            k += 1;
        }
        let share = sum.value.over(sum.total).max(Fixed { raw: 0 }).min(Fixed { raw: 1_000_000 });
        let span = self.properties.max_value.minus(self.properties.min_value);
        let low = self.properties.min_value.min(self.properties.max_value);
        let high = self.properties.min_value.max(self.properties.max_value);
        self.properties.min_value.plus(span.times(share)).max(low).min(high)
    }
}

} // verus!
