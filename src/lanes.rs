//! Repair of the seams between 32-byte lanes that peers computed in isolation.

use vstd::prelude::*;

verus! {

/// Width of a lane in bytes.
pub const LANE_BYTES: usize = 32;

/// The local rule applied at a seam: `x ^ ((x << 1) | (x << 2))`.
pub open spec fn rule_30_spec(x: u64) -> u64 {
    x ^ ((x << 1u64) | (x << 2u64))
}

/// Corrected pair for a seam whose left lane ends in `a` and whose right lane
/// starts with `b`: the right byte gets the rule once, the left byte gets the
/// rule on its upper seven bits and keeps its lowest bit.
pub open spec fn normalize_pair_spec(a: u8, b: u8) -> (u8, u8) {
    (
        ((rule_30_spec((a as u64) >> 1u64) << 1u64) | ((a as u64) & 1u64)) as u8,
        rule_30_spec(b as u64) as u8,
    )
}

/// A seam starts at byte `k` when `k` is the first byte of a lane other than
/// the first one.
pub open spec fn is_seam_start(len: int, k: int) -> bool {
    0 < k < len && k % 32 == 0
}

/// Byte `k` of the row after every seam has been repaired from the raw bytes.
pub open spec fn reconciled_at(raw: Seq<u8>, k: int) -> u8 {
    if is_seam_start(raw.len() as int, k + 1) {
        normalize_pair_spec(raw[k], raw[k + 1]).0
    } else if is_seam_start(raw.len() as int, k) {
        normalize_pair_spec(raw[k - 1], raw[k]).1
    } else {
        raw[k]
    }
}

/// The row after every seam has been repaired.
pub open spec fn reconciled(raw: Seq<u8>) -> Seq<u8> {
    Seq::new(raw.len(), |k: int| reconciled_at(raw, k))
}

/// Applies the local rule to a 64-bit word.
pub fn rule_30(a: u64) -> (r: u64)
    ensures
        r == rule_30_spec(a),
{
    a ^ ((a << 1u64) | (a << 2u64))
}

/// Repairs one seam: the lowest bit of `a` is carried into the top bit of a
/// 64-bit word holding `b`, the rule runs on both sides, and the carry comes
/// back into the lowest bit of `a`.
pub fn normalize_pair(a: u8, b: u8) -> (r: (u8, u8))
    ensures
        r == normalize_pair_spec(a, b),
{
    let wa = a as u64;
    let wb = b as u64;
    let carry = wa & 1;
    let mut x = wa >> 1u64;
    let mut y = (carry << 63u64) | wb;
    let ghost y0 = y;
    x = rule_30(x);
    y = rule_30(y);
    let msb = y >> 63u64;
    y = y & 0x7fff_ffff_ffff_ffffu64;
    x = (x << 1u64) | msb;
    proof {
        lemma_carry_bits(wa, wb, y0);
    }
    (x as u8, y as u8)
}

proof fn lemma_carry_bits(wa: u64, wb: u64, y0: u64)
    by (bit_vector)
    requires
        wa < 256,
        wb < 256,
        y0 == ((wa & 1u64) << 63u64) | wb,
    ensures
        (y0 ^ ((y0 << 1u64) | (y0 << 2u64))) >> 63u64 == wa & 1u64,
        ((y0 ^ ((y0 << 1u64) | (y0 << 2u64))) & 0x7fff_ffff_ffff_ffffu64) as u8 == (wb ^ ((wb
            << 1u64) | (wb << 2u64))) as u8,
{
}

/// Repairs every seam of `row`, in place, from left to right; each seam is
/// computed from its own two raw edge bytes.
#[verifier::rlimit(50)]
pub fn reconcile_lanes(row: &mut Vec<u8>)
    ensures
        final(row)@ == reconciled(old(row)@),
{
    let ghost raw = row@;
    let len = row.len();
    let mut k: usize = LANE_BYTES;
    while k < len
        invariant
            len == row.len(),
            raw.len() == len,
            raw == old(row)@,
            k >= 32,
            k % 32 == 0,
            forall|m: int|
                0 <= m < len ==> #[trigger] row@[m] == if m < k - 1 {
                    reconciled_at(raw, m)
                } else {
                    raw[m]
                },
        decreases len - k,
    {
        let (x, y) = normalize_pair(row[k - 1], row[k]);
        row.set(k - 1, x);
        row.set(k, y);
        assert forall|m: int| 0 <= m < len implies #[trigger] row@[m] == if m < k + 31 {
            reconciled_at(raw, m)
        } else {
            raw[m]
        } by {
            if m == k - 1 || m == k {
            } else if k - 1 < m < k + 31 {
                assert(!is_seam_start(len as int, m));
                assert(!is_seam_start(len as int, m + 1));
            }
        }
        if len - k <= LANE_BYTES {
            assert forall|m: int| 0 <= m < len implies #[trigger] row@[m] == reconciled_at(
                raw,
                m,
            ) by {
                if m >= k + 31 {
                    assert(!is_seam_start(len as int, m));
                    assert(!is_seam_start(len as int, m + 1));
                }
            }
            assert(row@ =~= reconciled(raw));
            return;
        }
        k = k + LANE_BYTES;
    }
    assert forall|m: int| 0 <= m < len implies #[trigger] row@[m] == reconciled_at(raw, m) by {
        if m >= k - 1 {
            assert(!is_seam_start(len as int, m));
            assert(!is_seam_start(len as int, m + 1));
        }
    }
    assert(row@ =~= reconciled(raw));
}

/// Repairs every seam of `lanes` in place and returns the repaired row as one
/// flat sequence: every lane but the last, then the last lane.
pub fn normalize_response_data(lanes: &mut Vec<u8>) -> (r: Vec<u8>)
    ensures
        final(lanes)@ == reconciled(old(lanes)@),
        r@ == reconciled(old(lanes)@),
{
    reconcile_lanes(lanes);
    let mut out: Vec<u8> = Vec::new();
    let mut i: usize = 0;
    while i < lanes.len()
        invariant
            0 <= i <= lanes.len(),
            out@ == lanes@.subrange(0, i as int),
        decreases lanes.len() - i,
    {
        out.push(lanes[i]);
        i = i + 1;
    }
    assert(out@ =~= lanes@);
    out
}

/// A seam's repaired bytes depend on its two raw edge bytes alone: two rows
/// that agree on them agree on the repaired pair, whatever else they hold.
pub proof fn lemma_seam_depends_on_edges(r1: Seq<u8>, r2: Seq<u8>, k: int)
    requires
        r1.len() == r2.len(),
        is_seam_start(r1.len() as int, k),
        r1[k - 1] == r2[k - 1],
        r1[k] == r2[k],
    ensures
        reconciled(r1)[k - 1] == reconciled(r2)[k - 1],
        reconciled(r1)[k] == reconciled(r2)[k],
        (reconciled(r1)[k - 1], reconciled(r1)[k]) == normalize_pair_spec(r1[k - 1], r1[k]),
{
}

} // verus!
