//! Sizing the dirty ring and negotiating it against the host.
use vstd::prelude::*;
use vstd::arithmetic::power2;

use crate::dirty_ring::DESIRED_RING_BYTES;
use crate::external::{cap_dirty_log_ring, cap_dirty_log_ring_acq_rel};

verus! {

/// The largest power of two that is at most `n`, or 0 when `n` is 0.
pub open spec fn floor_pow2(n: nat) -> nat
    decreases n,
{
    if n < 2 {
        n
    } else {
        2 * floor_pow2(n / 2)
    }
}

/// The ring size for a host that allows `host_max` bytes and has pages of `page` bytes: the
/// largest power of two within both limits, or 0 when that is less than a page.
pub open spec fn ring_bytes_for(host_max: nat, page: nat) -> nat {
    let target = if host_max < DESIRED_RING_BYTES {
        host_max
    } else {
        DESIRED_RING_BYTES as nat
    };
    if floor_pow2(target) < page {
        0
    } else {
        floor_pow2(target)
    }
}

/// `floor_pow2` is a power of two, and the largest one that is not above its argument.
pub proof fn law_floor_pow2(n: nat)
    requires
        n > 0,
    ensures
        power2::is_pow2(floor_pow2(n) as int),
        floor_pow2(n) <= n < 2 * floor_pow2(n),
    decreases n,
{
    reveal(power2::is_pow2);
    if n >= 2 {
        law_floor_pow2(n / 2);
    }
}

/// Of two powers of two the larger is at least twice the smaller.
proof fn lemma_pow2_gap(a: int, b: int)
    requires
        power2::is_pow2(a),
        power2::is_pow2(b),
        a < b,
    ensures
        2 * a <= b,
    decreases b,
{
    reveal(power2::is_pow2);
    if a > 1 {
        lemma_pow2_gap(a / 2, b / 2);
    }
}

/// Every usable ring size is a power of two, holds at least a page, and stays within what was
/// asked for and what the host allows.
pub proof fn law_ring_bytes_within_limits(host_max: nat, page: nat)
    requires
        page > 0,
        ring_bytes_for(host_max, page) != 0,
    ensures
        power2::is_pow2(ring_bytes_for(host_max, page) as int),
        page <= ring_bytes_for(host_max, page) <= host_max,
        ring_bytes_for(host_max, page) <= DESIRED_RING_BYTES,
{
    let target = if host_max < DESIRED_RING_BYTES {
        host_max
    } else {
        DESIRED_RING_BYTES as nat
    };
    law_floor_pow2(target);
}

/// No larger ring would do: every power of two within the limits is at most the chosen size.
pub proof fn law_ring_bytes_is_largest(host_max: nat, page: nat, bytes: nat)
    requires
        page > 0,
        power2::is_pow2(bytes as int),
        page <= bytes <= host_max,
        bytes <= DESIRED_RING_BYTES,
    ensures
        bytes <= ring_bytes_for(host_max, page),
{
    let target = if host_max < DESIRED_RING_BYTES {
        host_max
    } else {
        DESIRED_RING_BYTES as nat
    };
    law_floor_pow2(target);
    if bytes > floor_pow2(target) {
        lemma_pow2_gap(floor_pow2(target) as int, bytes as int);
    }
}

/// A ring has the largest size that is a power of two, at least a page, at most what the host
/// allows and at most 1 MiB; 0 says that there is no such size.
pub proof fn law_ring_size(host_max: nat, page: nat, bytes: nat)
    requires
        page > 0,
        power2::is_pow2(bytes as int),
    ensures
        ({
            let chosen = ring_bytes_for(host_max, page);
            &&& chosen != 0 ==> power2::is_pow2(chosen as int) && page <= chosen <= host_max
                && chosen <= 1024 * 1024
            &&& page <= bytes <= host_max && bytes <= 1024 * 1024 ==> bytes <= chosen
        }),
{
    if ring_bytes_for(host_max, page) != 0 {
        law_ring_bytes_within_limits(host_max, page);
    }
    if page <= bytes <= host_max && bytes <= 1024 * 1024 {
        law_ring_bytes_is_largest(host_max, page, bytes);
    }
}

/// A power of two divides every larger one.
pub proof fn lemma_pow2_divides(a: int, b: int)
    requires
        power2::is_pow2(a),
        power2::is_pow2(b),
        a <= b,
    ensures
        b % a == 0,
    decreases b,
{
    reveal(power2::is_pow2);
    if a > 1 {
        lemma_pow2_divides(a / 2, b / 2);
        let q = (b / 2) / (a / 2);
        vstd::arithmetic::div_mod::lemma_fundamental_div_mod(b / 2, a / 2);
        assert(b == a * q) by (nonlinear_arith)
            requires
                b / 2 == (a / 2) * q,
                b % 2 == 0,
                a % 2 == 0,
        ;
        vstd::arithmetic::div_mod::lemma_mod_multiples_basic(q, a);
        assert(q * a == a * q) by (nonlinear_arith);
    }
}

/// Where pages have the size of a power of two, every usable ring is made of whole pages, as its
/// mapping must be.
pub proof fn law_ring_is_whole_pages(host_max: nat, page: nat)
    requires
        power2::is_pow2(page as int),
        ring_bytes_for(host_max, page) != 0,
    ensures
        ring_bytes_for(host_max, page) % page == 0,
{
    assert(page > 0) by {
        reveal(power2::is_pow2);
    }
    law_ring_bytes_within_limits(host_max, page);
    lemma_pow2_divides(page as int, ring_bytes_for(host_max, page) as int);
}

/// `floor_pow2` steps down with halving.
proof fn lemma_floor_pow2_scaled(b: nat, n: nat)
    requires
        power2::is_pow2(b as int),
        b <= n < 2 * b,
    ensures
        floor_pow2(n) == b,
    decreases b,
{
    reveal(power2::is_pow2);
    if b > 1 {
        lemma_floor_pow2_scaled(b / 2, n / 2);
    }
}

/// The size in bytes of a vCPU's ring on a host that allows `host_max` bytes, with pages of
/// `page` bytes. 0 says that not even one page fits: the ring is unusable.
pub fn clamp_ring_bytes(host_max: usize, page: usize) -> (bytes: usize)
    requires
        page > 0,
    ensures
        bytes == ring_bytes_for(host_max as nat, page as nat),
{
    let target: usize = if host_max < DESIRED_RING_BYTES {
        host_max
    } else {
        DESIRED_RING_BYTES
    };
    if target < page {
        proof {
            if target > 0 {
                law_floor_pow2(target as nat);
            }
        }
        return 0;
    }
    proof {
        reveal(power2::is_pow2);
    }
    let mut bytes: usize = 1;
    while bytes <= target / 2
        invariant
            0 < bytes <= target,
            power2::is_pow2(bytes as int),
        decreases target - bytes,
    {
        assert(power2::is_pow2(2 * bytes)) by {
            reveal(power2::is_pow2);
        }
        bytes = bytes * 2;
    }
    proof {
        lemma_floor_pow2_scaled(bytes as nat, target as nat);
    }
    if bytes < page {
        0
    } else {
        bytes
    }
}

/// The dirty-ring capability negotiated against the host.
#[derive(Clone, Copy, Debug, PartialEq, Eq, Structural)]
pub struct DirtyRingCaps {
    /// The number of the ring capability to enable.
    pub cap: u32,
    /// Size of each vCPU's ring in bytes.
    pub ring_bytes: usize,
    /// Whether the host also offers the per-memslot bitmap beside the ring.
    pub with_bitmap: bool,
}

/// What the host answers when asked for each dirty-ring capability; for the two ring
/// capabilities a positive answer is the maximum ring size in bytes.
#[derive(Clone, Copy, Debug, PartialEq, Eq, Structural)]
pub struct CapProbe {
    /// Answer for the acquire/release ring.
    pub acq_rel: i32,
    /// Answer for the legacy ring.
    pub legacy: i32,
    /// Answer for the bitmap beside the ring.
    pub with_bitmap: i32,
}

impl CapProbe {
    /// Whether the host offers a ring of either kind.
    pub open spec fn offers_ring(self) -> bool {
        self.acq_rel > 0 || self.legacy > 0
    }

    /// The maximum ring size of the preferred kind, in bytes.
    pub open spec fn host_max(self) -> nat {
        if self.acq_rel > 0 {
            self.acq_rel as nat
        } else {
            self.legacy as nat
        }
    }
}

/// A positive answer for either kind of ring offers one, and the answer for the acquire/release
/// kind, where that is positive, is the size that counts.
pub proof fn law_probe_answers(probe: CapProbe)
    ensures
        probe.offers_ring() <==> probe.acq_rel > 0 || probe.legacy > 0,
        probe.acq_rel > 0 ==> probe.host_max() == probe.acq_rel,
        probe.acq_rel <= 0 && probe.legacy > 0 ==> probe.host_max() == probe.legacy,
{
}

/// Negotiates the ring: the acquire/release kind is preferred, the legacy kind is the fallback.
/// `None` says that the host offers neither, or no ring of at least a page.
pub fn detect(probe: CapProbe, page: usize) -> (caps: Option<DirtyRingCaps>)
    requires
        page > 0,
    ensures
        caps is Some <==> probe.offers_ring() && ring_bytes_for(probe.host_max(), page as nat) != 0,
        caps matches Some(c) ==> {
            &&& c.cap == if probe.acq_rel > 0 { 223u32 } else { 192u32 }
            &&& c.ring_bytes == ring_bytes_for(probe.host_max(), page as nat)
            &&& c.with_bitmap == (probe.with_bitmap > 0)
        },
        probe.acq_rel <= 0 && probe.legacy <= 0 ==> caps is None,
        probe.acq_rel > 0 ==> (caps is Some <==> ring_bytes_for(probe.acq_rel as nat, page as nat)
            != 0),
        probe.acq_rel <= 0 && probe.legacy > 0 ==> (caps is Some <==> ring_bytes_for(
            probe.legacy as nat,
            page as nat,
        ) != 0),
        caps matches Some(c) ==> c.ring_bytes == ring_bytes_for(
            if probe.acq_rel > 0 {
                probe.acq_rel as nat
            } else {
                probe.legacy as nat
            },
            page as nat,
        ),
{
    let cap: u32;
    let host_max: usize;
    if probe.acq_rel > 0 {
        cap = cap_dirty_log_ring_acq_rel();
        host_max = probe.acq_rel as usize;
    } else if probe.legacy > 0 {
        cap = cap_dirty_log_ring();
        host_max = probe.legacy as usize;
    } else {
        return None;
    }
    let ring_bytes: usize = clamp_ring_bytes(host_max, page);
    if ring_bytes == 0 {
        return None;
    }
    Some(DirtyRingCaps { cap, ring_bytes, with_bitmap: probe.with_bitmap > 0 })
}

} // verus!
