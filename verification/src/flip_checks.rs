use vstd::prelude::*;
use std::collections::HashMap;
use crate::config::{ROW_ALIGN_MASK, ROW_SIZE};
use crate::serialize::{BitFlip, VictimBit, VictimBitSpec, VictimFrame, VictimFrameSpec};
use crate::utils::row_base;

verus! {

broadcast use vstd::std_specs::hash::group_hash_axioms;

// ---------------------------------------------------------------------------
// Flip verification
//
// After a hammer burst the victim bytes are read back and every bit of every
// declared byte is classified: it must have flipped exactly as declared, and
// no undeclared bit of the byte may have changed.  The volatile reads happen
// outside the crate; the logic takes the byte values.
// ---------------------------------------------------------------------------

/// Observed direction of bit `i` between the byte before and after: 1 for a
/// 0-to-1 flip, -1 for 1-to-0, 0 for no change.
pub open spec fn flip_dir(before: u8, after: u8, i: u8) -> int {
    ((after >> i) & 1) - ((before >> i) & 1)
}

/// Declared direction for bit `i` of the byte at `offset`: 1 or -1 when a
/// flip is declared there (the last declaration wins), 0 otherwise.
pub open spec fn expected_dir(bits: Seq<VictimBitSpec>, offset: u64, i: u8) -> int
    decreases bits.len(),
{
    if bits.len() == 0 {
        0
    } else if bits.last().offset == offset && bits.last().bitflip.flip_index == i {
        if bits.last().bitflip.flip_direction {
            1
        } else {
            -1
        }
    } else {
        expected_dir(bits.drop_last(), offset, i)
    }
}

/// Every bit of the byte at `offset` moved exactly as declared.
pub open spec fn byte_ok(bits: Seq<VictimBitSpec>, offset: u64, before: u8, after: u8) -> bool {
    forall|i: u8| i < 8 ==> flip_dir(before, after, i) == #[trigger] expected_dir(bits, offset, i)
}

/// The physical address of a declared victim byte.
pub open spec fn victim_byte_addr(vf: VictimFrameSpec, b: int) -> u64 {
    (vf.frame_addr + vf.victim_bits[b].offset) as u64
}

/// Every declared byte of every victim frame checks out between the two
/// contents.
pub open spec fn check_ok(
    vfs: Seq<VictimFrameSpec>,
    before: Map<u64, u8>,
    after: Map<u64, u8>,
) -> bool {
    forall|v: int, b: int|
        0 <= v < vfs.len() && 0 <= b < vfs[v].victim_bits.len() ==> byte_ok(
            vfs[v].victim_bits,
            (#[trigger] vfs[v].victim_bits[b]).offset,
            before[victim_byte_addr(vfs[v], b)],
            after[victim_byte_addr(vfs[v], b)],
        )
}

/// Declared direction for bit `i` of the byte at `offset`, scanned as the
/// declarations are stored.
fn expected_dir_of(bits: &Vec<VictimBit>, offset: u64, i: u8) -> (e: i32)
    ensures
        e == expected_dir(Seq::new(bits@.len(), |k: int| bits@[k]@), offset, i),
{
    let ghost bseq = Seq::new(bits@.len(), |k: int| bits@[k]@);
    let mut e: i32 = 0;
    let mut k: usize = 0;
    while k < bits.len()
        invariant
            bseq == Seq::new(bits@.len(), |k0: int| bits@[k0]@),
            0 <= k <= bits@.len(),
            e == expected_dir(bseq.take(k as int), offset, i),
            -1 <= e <= 1,
        decreases bits@.len() - k,
    {
        proof {
            assert(bseq.take(k as int + 1).drop_last() =~= bseq.take(k as int));
            assert(bseq.take(k as int + 1).last() == bseq[k as int]);
        }
        let bit = &bits[k];
        if bit.offset == offset && bit.bitflip.flip_index == i {
            e = if bit.bitflip.flip_direction {
                1
            } else {
                -1
            };
        }
        k = k + 1;
    }
    proof {
        assert(bseq.take(bseq.len() as int) =~= bseq);
    }
    e
}

/// Checks one declared byte: every bit must have moved exactly as declared.
fn check_byte(bits: &Vec<VictimBit>, offset: u64, before: u8, after: u8) -> (r: bool)
    ensures
        r == byte_ok(Seq::new(bits@.len(), |k: int| bits@[k]@), offset, before, after),
{
    let ghost bseq = Seq::new(bits@.len(), |k: int| bits@[k]@);
    let mut i: u8 = 0;
    let mut r: bool = true;
    while i < 8
        invariant
            bseq == Seq::new(bits@.len(), |k0: int| bits@[k0]@),
            0 <= i <= 8,
            r == (forall|i0: u8|
                i0 < i ==> flip_dir(before, after, i0) == #[trigger] expected_dir(
                    bseq,
                    offset,
                    i0,
                )),
        decreases 8 - i,
    {
        let e = expected_dir_of(bits, offset, i);
        let observed: i32 = (((after >> i) & 1) as i32) - (((before >> i) & 1) as i32);
        let ghost r_pre = r;
        if observed != e {
            r = false;
        }
        proof {
            assert(observed == flip_dir(before, after, i));
            if r_pre && observed == e {
                assert forall|i0: u8|
                    i0 < i + 1 implies flip_dir(before, after, i0) == #[trigger] expected_dir(
                    bseq,
                    offset,
                    i0,
                ) by {
                    if i0 < i {
                    } else {
                        assert(i0 == i);
                    }
                }
            } else if observed != e {
                assert(flip_dir(before, after, i) != expected_dir(bseq, offset, i));
            }
        }
        i = i + 1;
    }
    r
}

/// Checks the declared victim bytes of `victim_frames` between the cached
/// contents from before hammering and the contents read after: true exactly
/// when every declared bit flipped in its declared direction and no other
/// bit of a declared byte changed.
pub fn check_victim_flips(
    victim_frames: &Vec<VictimFrame>,
    content_before: &HashMap<u64, u8>,
    content_after: &HashMap<u64, u8>,
) -> (ok: bool)
    requires
        vstd::std_specs::hash::obeys_key_model::<u64>(),
        forall|v: int, b: int|
            0 <= v < victim_frames@.len() && 0 <= b < victim_frames@[v]@.victim_bits.len()
                ==> victim_frames@[v]@.frame_addr + (
            #[trigger] victim_frames@[v]@.victim_bits[b]).offset <= u64::MAX,
        forall|v: int, b: int|
            0 <= v < victim_frames@.len() && 0 <= b < victim_frames@[v]@.victim_bits.len()
                ==> content_before@.contains_key(#[trigger] victim_byte_addr(victim_frames@[v]@, b))
                && content_after@.contains_key(victim_byte_addr(victim_frames@[v]@, b)),
    ensures
        ok == check_ok(
            Seq::new(victim_frames@.len(), |v: int| victim_frames@[v]@),
            content_before@,
            content_after@,
        ),
{
    let ghost vfs = Seq::new(victim_frames@.len(), |v: int| victim_frames@[v]@);
    let mut ok: bool = true;
    let mut v: usize = 0;
    while v < victim_frames.len()
        invariant
            vfs == Seq::new(victim_frames@.len(), |v0: int| victim_frames@[v0]@),
            vstd::std_specs::hash::obeys_key_model::<u64>(),
            forall|v0: int, b0: int|
                0 <= v0 < vfs.len() && 0 <= b0 < vfs[v0].victim_bits.len()
                    ==> vfs[v0].frame_addr + (#[trigger] vfs[v0].victim_bits[b0]).offset
                    <= u64::MAX,
            forall|v0: int, b0: int|
                0 <= v0 < vfs.len() && 0 <= b0 < vfs[v0].victim_bits.len()
                    ==> content_before@.contains_key(#[trigger] victim_byte_addr(vfs[v0], b0))
                    && content_after@.contains_key(victim_byte_addr(vfs[v0], b0)),
            0 <= v <= vfs.len(),
            ok == (forall|v0: int, b0: int|
                0 <= v0 < v && 0 <= b0 < vfs[v0].victim_bits.len() ==> byte_ok(
                    vfs[v0].victim_bits,
                    (#[trigger] vfs[v0].victim_bits[b0]).offset,
                    content_before@[victim_byte_addr(vfs[v0], b0)],
                    content_after@[victim_byte_addr(vfs[v0], b0)],
                )),
        decreases vfs.len() - v,
    {
        let vf = &victim_frames[v];
        proof {
            assert(vf@ == vfs[v as int]);
        }
        let mut b: usize = 0;
        while b < vf.victim_bits.len()
            invariant
                vfs == Seq::new(victim_frames@.len(), |v0: int| victim_frames@[v0]@),
                vstd::std_specs::hash::obeys_key_model::<u64>(),
                0 <= v < vfs.len(),
                vf@ == vfs[v as int],
                vf.victim_bits@.len() == vfs[v as int].victim_bits.len(),
                forall|b0: int|
                    0 <= b0 < vfs[v as int].victim_bits.len() ==> vfs[v as int].frame_addr + (
                    #[trigger] vfs[v as int].victim_bits[b0]).offset <= u64::MAX,
                forall|b0: int|
                    0 <= b0 < vfs[v as int].victim_bits.len()
                        ==> content_before@.contains_key(victim_byte_addr(vfs[v as int], b0))
                        && content_after@.contains_key(
                        #[trigger] victim_byte_addr(vfs[v as int], b0),
                    ),
                0 <= b <= vf.victim_bits@.len(),
                ok == ((forall|v0: int, b0: int|
                    0 <= v0 < v && 0 <= b0 < vfs[v0].victim_bits.len() ==> byte_ok(
                        vfs[v0].victim_bits,
                        (#[trigger] vfs[v0].victim_bits[b0]).offset,
                        content_before@[victim_byte_addr(vfs[v0], b0)],
                        content_after@[victim_byte_addr(vfs[v0], b0)],
                    )) && (forall|b0: int|
                    0 <= b0 < b ==> byte_ok(
                        vfs[v as int].victim_bits,
                        (#[trigger] vfs[v as int].victim_bits[b0]).offset,
                        content_before@[victim_byte_addr(vfs[v as int], b0)],
                        content_after@[victim_byte_addr(vfs[v as int], b0)],
                    ))),
            decreases vf.victim_bits@.len() - b,
        {
            proof {
                assert(vf.victim_bits@[b as int]@ == vfs[v as int].victim_bits[b as int]);
            }
            let offset = vf.victim_bits[b].offset;
            let addr = vf.frame_addr + offset;
            proof {
                assert(addr == victim_byte_addr(vfs[v as int], b as int));
            }
            let before = *content_before.get(&addr).unwrap();
            let after = *content_after.get(&addr).unwrap();
            let this_ok = check_byte(&vf.victim_bits, offset, before, after);
            proof {
                assert(Seq::new(vf.victim_bits@.len(), |k: int| vf.victim_bits@[k]@)
                    =~= vfs[v as int].victim_bits);
            }
            if !this_ok {
                ok = false;
            }
            b = b + 1;
        }
        v = v + 1;
    }
    ok
}

/// How one bit of a declared byte moved against its declaration.
#[derive(Debug, Clone, Copy, PartialEq, Eq, Structural)]
pub enum BitOutcome {
    /// No flip declared, none observed.
    Unchanged,
    /// The declared flip happened, in its declared direction.
    FlippedAsExpected,
    /// The declared bit flipped against its declared direction.
    WrongDirection,
    /// A flip was declared but the bit did not move.
    MissingFlip,
    /// No flip was declared, yet the bit moved.
    UnexpectedFlip,
}

/// The classification of bit `i` of the byte at `offset` between the two
/// contents, against the declared flips.
pub open spec fn bit_outcome(
    bits: Seq<VictimBitSpec>,
    offset: u64,
    before: u8,
    after: u8,
    i: u8,
) -> BitOutcome {
    let declared = expected_dir(bits, offset, i);
    let observed = flip_dir(before, after, i);
    if declared == 0 {
        if observed == 0 {
            BitOutcome::Unchanged
        } else {
            BitOutcome::UnexpectedFlip
        }
    } else if observed == declared {
        BitOutcome::FlippedAsExpected
    } else if observed == 0 {
        BitOutcome::MissingFlip
    } else {
        BitOutcome::WrongDirection
    }
}

/// Classifies all eight bits of the declared byte at `offset`, for per-bit
/// diagnostics: wrong directions, missing flips and unexpected flips are the
/// errors the check's boolean folds together.
pub fn classify_byte(bits: &Vec<VictimBit>, offset: u64, before: u8, after: u8) -> (r: Vec<
    BitOutcome,
>)
    ensures
        r@.len() == 8,
        forall|i: int|
            0 <= i < 8 ==> r@[i] == bit_outcome(
                Seq::new(bits@.len(), |k: int| bits@[k]@),
                offset,
                before,
                after,
                i as u8,
            ),
{
    let ghost bseq = Seq::new(bits@.len(), |k: int| bits@[k]@);
    let mut r: Vec<BitOutcome> = Vec::new();
    let mut i: u8 = 0;
    while i < 8
        invariant
            bseq == Seq::new(bits@.len(), |k0: int| bits@[k0]@),
            0 <= i <= 8,
            r@.len() == i,
            forall|i0: int|
                0 <= i0 < i ==> r@[i0] == bit_outcome(bseq, offset, before, after, i0 as u8),
        decreases 8 - i,
    {
        let declared = expected_dir_of(bits, offset, i);
        let observed: i32 = (((after >> i) & 1) as i32) - (((before >> i) & 1) as i32);
        let outcome = if declared == 0 {
            if observed == 0 {
                BitOutcome::Unchanged
            } else {
                BitOutcome::UnexpectedFlip
            }
        } else if observed == declared {
            BitOutcome::FlippedAsExpected
        } else if observed == 0 {
            BitOutcome::MissingFlip
        } else {
            BitOutcome::WrongDirection
        };
        r.push(outcome);
        proof {
            assert(observed == flip_dir(before, after, i));
            assert(r@[i as int] == bit_outcome(bseq, offset, before, after, i));
        }
        i = i + 1;
    }
    r
}

/// The check's boolean is the fold of the per-bit classification: a byte
/// checks out exactly when every bit is unchanged or flipped as declared.
pub proof fn lemma_byte_ok_outcomes(bits: Seq<VictimBitSpec>, offset: u64, before: u8, after: u8)
    ensures
        byte_ok(bits, offset, before, after) <==> (forall|i: u8|
            i < 8 ==> {
                let o = #[trigger] bit_outcome(bits, offset, before, after, i);
                o == BitOutcome::Unchanged || o == BitOutcome::FlippedAsExpected
            }),
{
    if byte_ok(bits, offset, before, after) {
        assert forall|i: u8| i < 8 implies {
            let o = #[trigger] bit_outcome(bits, offset, before, after, i);
            o == BitOutcome::Unchanged || o == BitOutcome::FlippedAsExpected
        } by {
            assert(flip_dir(before, after, i) == expected_dir(bits, offset, i));
        }
    }
    if forall|i: u8|
        i < 8 ==> {
            let o = #[trigger] bit_outcome(bits, offset, before, after, i);
            o == BitOutcome::Unchanged || o == BitOutcome::FlippedAsExpected
        } {
        assert forall|i: u8| i < 8 implies flip_dir(before, after, i) == #[trigger] expected_dir(
            bits,
            offset,
            i,
        ) by {
            let o = bit_outcome(bits, offset, before, after, i);
            assert(o == BitOutcome::Unchanged || o == BitOutcome::FlippedAsExpected);
        }
    }
}

/// Feeding a snapshot back as its own baseline never reports a flip: the
/// check then holds exactly when nothing was declared to flip.
pub proof fn lemma_snapshot_unchanged(vfs: Seq<VictimFrameSpec>, snap: Map<u64, u8>)
    requires
        forall|v: int, b: int|
            0 <= v < vfs.len() && 0 <= b < vfs[v].victim_bits.len() ==> (
            #[trigger] vfs[v].victim_bits[b]).bitflip.flip_index < 8,
    ensures
        check_ok(vfs, snap, snap) <==> (forall|v: int|
            0 <= v < vfs.len() ==> (#[trigger] vfs[v].victim_bits).len() == 0),
{
    if forall|v: int| 0 <= v < vfs.len() ==> (#[trigger] vfs[v].victim_bits).len() == 0 {
        assert forall|v: int, b: int|
            0 <= v < vfs.len() && 0 <= b < vfs[v].victim_bits.len() implies byte_ok(
            vfs[v].victim_bits,
            (#[trigger] vfs[v].victim_bits[b]).offset,
            snap[victim_byte_addr(vfs[v], b)],
            snap[victim_byte_addr(vfs[v], b)],
        ) by {}
    }
    if check_ok(vfs, snap, snap) {
        assert forall|v: int| 0 <= v < vfs.len() implies (#[trigger] vfs[v].victim_bits).len()
            == 0 by {
            if vfs[v].victim_bits.len() > 0 {
                let bits = vfs[v].victim_bits;
                let i = bits[0].bitflip.flip_index;
                assert(byte_ok(
                    bits,
                    bits[0].offset,
                    snap[victim_byte_addr(vfs[v], 0)],
                    snap[victim_byte_addr(vfs[v], 0)],
                ));
                lemma_declared_bit_expected(bits, 0, bits[0].offset, i);
                let x = snap[victim_byte_addr(vfs[v], 0)];
                assert(flip_dir(x, x, i) == expected_dir(bits, bits[0].offset, i));
                assert(flip_dir(x, x, i) == 0);
                assert(false);
            }
        }
    }
}

/// A byte with a declared flip at bit `i` has a non-zero expected direction
/// there.
proof fn lemma_declared_bit_expected(bits: Seq<VictimBitSpec>, b: int, offset: u64, i: u8)
    requires
        0 <= b < bits.len(),
        bits[b].offset == offset,
        bits[b].bitflip.flip_index == i,
    ensures
        expected_dir(bits, offset, i) != 0,
    decreases bits.len(),
{
    if bits.last().offset == offset && bits.last().bitflip.flip_index == i {
    } else {
        lemma_declared_bit_expected(bits.drop_last(), b, offset, i);
    }
}

/// The bit flips a freshly hammered row shows against its init value, for
/// one byte.
pub open spec fn flips_of_byte(content: u8, addr: u64, init: u8, i: nat) -> Seq<(u64, BitFlip)>
    decreases i,
{
    if i == 0 {
        Seq::empty()
    } else {
        let k = (i - 1) as u8;
        flips_of_byte(content, addr, init, (i - 1) as nat) + (
        if (init >> k) & 1 != (content >> k) & 1 {
            seq![
                (
                    addr,
                    BitFlip { flip_index: k, flip_direction: (content >> k) & 1 == 1 },
                ),
            ]
        } else {
            Seq::empty()
        })
    }
}

/// The bit flips of a whole row read-back against its init value, over the
/// first `n` bytes.
pub open spec fn flips_of_bytes(bytes: Seq<u8>, base: u64, init: u8, n: nat) -> Seq<(u64, BitFlip)>
    decreases n,
{
    if n == 0 {
        Seq::empty()
    } else {
        flips_of_bytes(bytes, base, init, (n - 1) as nat) + flips_of_byte(
            bytes[n - 1],
            (base + (n - 1)) as u64,
            init,
            8,
        )
    }
}

/// Scans a whole row, read back after hammering, for bytes differing from
/// the init value the row was filled with.  Returns one entry per flipped
/// bit, keyed by its physical address, in address order.
pub fn check_row_for_flips(row_bytes: &Vec<u8>, phys_addr: u64, init_value: u8) -> (flips: Vec<
    (u64, BitFlip),
>)
    requires
        row_bytes@.len() == ROW_SIZE,
    ensures
        flips@ == flips_of_bytes(row_bytes@, row_base(phys_addr), init_value, ROW_SIZE as nat),
{
    proof {
        crate::utils::lemma_row_base_fits(phys_addr);
    }
    let row_addr: u64 = phys_addr & ROW_ALIGN_MASK;
    let mut flips: Vec<(u64, BitFlip)> = Vec::new();
    let mut i: usize = 0;
    while i < row_bytes.len()
        invariant
            row_bytes@.len() == ROW_SIZE,
            row_addr == row_base(phys_addr),
            row_addr + ROW_SIZE <= u64::MAX + 1,
            0 <= i <= ROW_SIZE,
            flips@ == flips_of_bytes(row_bytes@, row_addr, init_value, i as nat),
        decreases ROW_SIZE - i,
    {
        let content = row_bytes[i];
        let addr: u64 = row_addr + (i as u64);
        let mut k: u8 = 0;
        let ghost pre = flips@;
        while k < 8
            invariant
                0 <= k <= 8,
                flips@ == pre + flips_of_byte(content, addr, init_value, k as nat),
            decreases 8 - k,
        {
            if (init_value >> k) & 1 != (content >> k) & 1 {
                flips.push((addr, BitFlip { flip_index: k, flip_direction: (content >> k) & 1 == 1 }));
                proof {
                    assert(flips@ =~= pre + flips_of_byte(content, addr, init_value, k as nat + 1));
                }
            } else {
                proof {
                    assert(flips@ =~= pre + flips_of_byte(content, addr, init_value, k as nat + 1));
                }
            }
            k = k + 1;
        }
        i = i + 1;
    }
    flips
}

} // verus!
