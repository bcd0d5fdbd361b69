//! The mean energy of the points that an encoder sends, before the precoder
//! and the non-linear encoder, with its bits evenly spread.

use crate::v34::constellation::{norm, on_grid, quarter, Constellation, QUARTER};
use crate::v34::encoder::small_power;
use crate::v34::framing::{eighth, law_framings_fit, Framing};
use crate::v34::shell::{lemma_eighth_power, shell, shell_of, ShellMapper};
use vstd::arithmetic::power2::pow2;
use vstd::prelude::*;

verus! {

/// Into how many parts the values of the shell mapper are divided.
pub const SAMPLES: u64 = 16_384;

/// The energy of the first `count` labels from `from` on.
pub open spec fn labels_energy(from: int, count: int) -> int
    decreases count,
{
    if count <= 0 {
        0
    } else {
        labels_energy(from, count - 1) + norm(quarter()[from + count - 1])
    }
}

/// The energy of all the points in a ring of one quarter.
pub open spec fn ring_energy(q: nat, ring: int) -> int {
    labels_energy(ring * pow2(q), pow2(q) as int)
}

/// The energy of the first `count` rings of a mapping frame.
pub open spec fn frame_energy(q: nat, rings: Seq<u8>, count: int) -> int
    decreases count,
{
    if count <= 0 {
        0
    } else {
        frame_energy(q, rings, count - 1) + ring_energy(q, rings[count - 1] as int)
    }
}

/// R0 in the middle of part `n` of the values that K shell mapping bits have.
pub open spec fn sample(shell_bits: nat, n: int) -> int {
    (2 * n + 1) * pow2(shell_bits) / (2 * SAMPLES as int)
}

/// The energy of the mapping frames in the middle of the first `count` parts.
pub open spec fn shell_energy(rings: int, q: nat, shell_bits: nat, count: int) -> int
    decreases count,
{
    if count <= 0 {
        0
    } else {
        shell_energy(rings, q, shell_bits, count - 1) + frame_energy(
            q,
            shell_of(rings, sample(shell_bits, count - 1)),
            8,
        )
    }
}

/// The mean energy, as a fraction: over the high and the low mapping frames
/// of a data frame, as the shell mapper spreads evenly spread bits.
pub open spec fn mean_energy(framing: Framing) -> (int, int) {
    let (q, m) = (framing.q as nat, framing.rings as int);
    if framing.k == 0 {
        (ring_energy(q, 0), pow2(q) as int)
    } else {
        (
            framing.r * shell_energy(m, q, framing.k as nat, SAMPLES as int) + (framing.p
                - framing.r) * shell_energy(m, q, (framing.k - 1) as nat, SAMPLES as int),
            framing.p * (8 * SAMPLES * pow2(q)),
        )
    }
}

/// The most that a ring has: 416 points within 49 of the origin either way.
pub const RING_LIMIT: u64 = 1_997_632;

proof fn lemma_norm(p: (i32, i32))
    requires
        on_grid(p),
    ensures
        0 <= norm(p) <= 4802,
{
    let (x, y) = (p.0 as int, p.1 as int);
    assert(0 <= x * x <= 2401) by (nonlinear_arith)
        requires
            -47 <= x <= 49,
    ;
    assert(0 <= y * y <= 2401) by (nonlinear_arith)
        requires
            -47 <= y <= 49,
    ;
}

/// The energy of the points of each ring in one quarter.
fn ring_energies(framing: &Framing) -> (energies: Vec<u64>)
    requires
        framing.valid(),
    ensures
        energies.len() == framing.rings,
        forall|ring: int|
            0 <= ring < framing.rings ==> #[trigger] energies[ring] == ring_energy(
                framing.q as nat,
                ring,
            ) && energies[ring] <= RING_LIMIT,
{
    proof {
        law_framings_fit(*framing);
    }
    let constellation = Constellation::new();
    let per_ring = small_power(framing.q);
    let mut energies: Vec<u64> = Vec::new();
    let mut ring: usize = 0;
    while ring < framing.rings as usize
        invariant
            framing.rings * pow2(framing.q as nat) <= 416,
            per_ring == pow2(framing.q as nat),
            constellation.valid(),
            ring <= framing.rings,
            energies.len() == ring,
            forall|i: int|
                0 <= i < ring ==> #[trigger] energies[i] == ring_energy(framing.q as nat, i)
                    && energies[i] <= RING_LIMIT,
        decreases framing.rings - ring,
    {
        proof {
            assert((ring + 1) * per_ring <= 416 && 0 <= ring * per_ring && (ring + 1) * per_ring
                == ring * per_ring + per_ring) by (nonlinear_arith)
                requires
                    ring + 1 <= framing.rings,
                    framing.rings * per_ring <= 416,
                    per_ring >= 0,
            ;
        }
        let from: usize = ring * per_ring;
        let mut sum: u64 = 0;
        let mut n: usize = 0;
        while n < per_ring
            invariant
                n <= per_ring,
                from + per_ring <= 416,
                constellation.valid(),
                sum == labels_energy(from as int, n as int),
                sum <= 4802 * n,
            decreases per_ring - n,
        {
            let (re, im) = constellation.point(from + n);
            proof {
                lemma_norm((re, im));
                let (x, y) = (re as int, im as int);
                assert(0 <= x * x <= 2401) by (nonlinear_arith)
                    requires
                        -47 <= x <= 49,
                ;
                assert(0 <= y * y <= 2401) by (nonlinear_arith)
                    requires
                        -47 <= y <= 49,
                ;
            }
            let energy: i32 = re * re + im * im;
            sum = sum + energy as u64;
            n += 1;
        }
        energies.push(sum);
        ring += 1;
    }
    energies
}

/// The energy of the mapping frames in the middle of each part.
fn shell_sum(framing: &Framing, mapper: &ShellMapper, energies: &Vec<u64>, shell_bits: usize) -> (sum:
    u64)
    requires
        framing.valid(),
        mapper.valid(),
        mapper.m() == framing.rings,
        shell_bits <= framing.k,
        energies.len() == framing.rings,
        forall|ring: int|
            0 <= ring < framing.rings ==> #[trigger] energies[ring] == ring_energy(
                framing.q as nat,
                ring,
            ) && energies[ring] <= RING_LIMIT,
    ensures
        sum == shell_energy(
            framing.rings as int,
            framing.q as nat,
            shell_bits as nat,
            SAMPLES as int,
        ),
        sum <= 16_384 * 15_981_056,
{
    let ghost q = framing.q as nat;
    let ghost m = framing.rings as int;
    proof {
        law_framings_fit(*framing);
        lemma_eighth_power(m);
        if shell_bits < framing.k {
            vstd::arithmetic::power2::lemma_pow2_strictly_increases(
                shell_bits as nat,
                framing.k as nat,
            );
        }
        if shell_bits < 31 {
            vstd::arithmetic::power2::lemma_pow2_strictly_increases(shell_bits as nat, 31);
        }
        vstd::arithmetic::power2::lemma2_to64();
    }
    let span = shell_values(shell_bits);
    let mut sum: u64 = 0;
    let mut n: u64 = 0;
    while n < SAMPLES
        invariant
            n <= SAMPLES,
            q == framing.q,
            m == framing.rings,
            mapper.valid(),
            mapper.m() == m,
            energies.len() == m,
            span == pow2(shell_bits as nat),
            span <= 0x8000_0000,
            span <= vstd::arithmetic::power::pow(m, 8),
            sum == shell_energy(m, q, shell_bits as nat, n as int),
            sum <= n * 15_981_056,
            forall|ring: int|
                0 <= ring < m ==> #[trigger] energies[ring] == ring_energy(q, ring)
                    && energies[ring] <= RING_LIMIT,
        decreases SAMPLES - n,
    {
        proof {
            assert((2 * n + 1) * span <= 32_767 * 0x8000_0000) by (nonlinear_arith)
                requires
                    n < 16_384,
                    span <= 0x8000_0000,
            ;
            assert((2 * n + 1) * span / 32_768int < span || span == 0) by (nonlinear_arith)
                requires
                    n < 16_384,
                    span >= 0,
            ;
        }
        let r0: u64 = (2 * n + 1) * span / (2 * SAMPLES);
        proof {
            assert(r0 == sample(shell_bits as nat, n as int));
            vstd::arithmetic::power2::lemma_pow2_pos(shell_bits as nat);
        }
        let rings = mapper.map(r0);
        let mut frame: u64 = 0;
        let mut i: usize = 0;
        while i < 8
            invariant
                i <= 8,
                shell(m, rings@),
                energies.len() == m,
                frame == frame_energy(q, rings@, i as int),
                frame <= i * 1_997_632,
                forall|ring: int|
                    0 <= ring < m ==> #[trigger] energies[ring] == ring_energy(q, ring)
                        && energies[ring] <= RING_LIMIT,
            decreases 8 - i,
        {
            frame = frame + energies[rings[i] as usize];
            i += 1;
        }
        sum = sum + frame;
        n += 1;
    }
    sum
}

fn shell_values(shell_bits: usize) -> (values: u64)
    requires
        shell_bits <= 31,
    ensures
        values == pow2(shell_bits as nat),
{
    let mut values: u64 = 1;
    let mut n: usize = 0;
    proof {
        vstd::arithmetic::power2::lemma2_to64();
    }
    while n < shell_bits
        invariant
            n <= shell_bits <= 31,
            values == pow2(n as nat),
        decreases shell_bits - n,
    {
        proof {
            vstd::arithmetic::power2::lemma_pow2_unfold((n + 1) as nat);
            vstd::arithmetic::power2::lemma_pow2_strictly_increases(n as nat, 31);
            vstd::arithmetic::power2::lemma2_to64();
        }
        values = 2 * values;
        n += 1;
    }
    values
}

/// The mean energy of the points at a framing, as a fraction.
#[must_use]
#[verifier::spinoff_prover]
pub fn average_energy(framing: &Framing) -> (energy: (u64, u64))
    requires
        framing.valid(),
    ensures
        energy.0 == mean_energy(*framing).0,
        energy.1 == mean_energy(*framing).1,
        energy.1 > 0,
{
    proof {
        law_framings_fit(*framing);
        vstd::arithmetic::power2::lemma_pow2_pos(framing.q as nat);
    }
    let per_ring = small_power(framing.q);
    let energies = ring_energies(framing);
    if framing.k == 0 {
        return (energies[0], per_ring as u64);
    }
    let mapper = ShellMapper::new(framing.rings);
    let high = shell_sum(framing, &mapper, &energies, framing.k);
    let low = shell_sum(framing, &mapper, &energies, framing.k - 1);
    let (r, p) = (framing.r as u64, framing.p as u64);
    proof {
        let most: int = 16_384 * 15_981_056int;
        let m = framing.rings as int;
        assert(per_ring <= 416) by (nonlinear_arith)
            requires
                m * per_ring <= 416,
                m >= 1,
                per_ring >= 0,
        ;
        assert(0 <= r * high <= 16 * most && 0 <= (p - r) * low <= 16 * most) by (nonlinear_arith)
            requires
                r <= p <= 16,
                high <= most,
                low <= most,
        ;
        assert(0 < p * (8 * 16_384 * per_ring) <= 16 * (8 * 16_384 * 416)) by (nonlinear_arith)
            requires
                12 <= p <= 16,
                0 < per_ring <= 416,
        ;
    }
    assert(8 * SAMPLES == 131_072);
    assert(8 * SAMPLES * per_ring <= 131_072 * 416);
    let drawn: u64 = 8 * SAMPLES * per_ring as u64;
    (r * high + (p - r) * low, p * drawn)
}

/// Energies add up: a label adds x² + y² of its point, a ring the labels of
/// its 2^q points in turn, a mapping frame its eight rings, and each of 16384
/// equal parts of the shell mapper's values the frame in its middle.
pub proof fn law_energies_add_up(q: nat, rings: Seq<u8>, shells: int, shell_bits: nat, from: int, n: int)
    requires
        n >= 0,
    ensures
        SAMPLES == 16_384,
        labels_energy(from, 0) == 0,
        labels_energy(from, n + 1) == labels_energy(from, n) + quarter()[from + n].0 * quarter()[from + n].0 + quarter()[from
            + n].1 * quarter()[from + n].1,
        ring_energy(q, n) == labels_energy(n * pow2(q), pow2(q) as int),
        frame_energy(q, rings, 0) == 0,
        frame_energy(q, rings, n + 1) == frame_energy(q, rings, n) + ring_energy(q, rings[n] as int),
        32_768 * sample(shell_bits, n) <= (2 * n + 1) * pow2(shell_bits) < 32_768 * sample(shell_bits, n) + 32_768,
        shell_energy(shells, q, shell_bits, 0) == 0,
        shell_energy(shells, q, shell_bits, n + 1) == shell_energy(shells, q, shell_bits, n) + frame_energy(
            q,
            shell_of(shells, sample(shell_bits, n)),
            8,
        ),
{
    let values: int = (2 * n + 1) * pow2(shell_bits);
    assert(sample(shell_bits, n) == values / 32_768);
}

/// The mean is over the r high and the p − r low mapping frames of a data
/// frame, which have K and K − 1 shell mapping bits, and over eight points in
/// each, of 2^q labels to a ring.
pub proof fn law_the_mean_weighs_high_and_low_frames(framing: Framing)
    ensures
        framing.k == 0 ==> mean_energy(framing) == (ring_energy(framing.q as nat, 0), pow2(framing.q as nat) as int),
        framing.k > 0 ==> ({
            let (q, m) = (framing.q as nat, framing.rings as int);
            let high = shell_energy(m, q, framing.k as nat, 16_384);
            let low = shell_energy(m, q, (framing.k - 1) as nat, 16_384);
            &&& mean_energy(framing).0 == framing.r * high + (framing.p - framing.r) * low
            &&& mean_energy(framing).1 == framing.p * (131_072 * pow2(q))
        }),
{
}

} // verus!
