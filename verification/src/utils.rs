use vstd::prelude::*;
use crate::config::{PAGE_SIZE, ROW_ALIGN_MASK, ROW_SIZE, PAGES_PER_ROW};

verus! {

/// Base address of the DRAM row containing `phys_addr`.
pub open spec fn row_base(phys_addr: u64) -> u64 {
    phys_addr & ROW_ALIGN_MASK
}

/// The page-frame addresses making up the row of `phys_addr`: the row base
/// and each following page.
pub open spec fn frames_in_row_spec(phys_addr: u64) -> Seq<u64> {
    Seq::new(PAGES_PER_ROW as nat, |i: int| (row_base(phys_addr) + i * PAGE_SIZE) as u64)
}

/// A row base never sits close enough to the end of the address space for
/// its pages to overflow.
pub proof fn lemma_row_base_fits(phys_addr: u64)
    ensures
        row_base(phys_addr) + ROW_SIZE <= u64::MAX + 1,
        row_base(phys_addr) & ROW_ALIGN_MASK == row_base(phys_addr),
{
    assert((phys_addr & ROW_ALIGN_MASK) + ROW_SIZE <= u64::MAX + 1 && (phys_addr & ROW_ALIGN_MASK)
        & ROW_ALIGN_MASK == phys_addr & ROW_ALIGN_MASK) by (bit_vector);
}

/// All page frames of the DRAM row containing `row_phys_addr`, lowest first.
pub fn get_frames_in_row(row_phys_addr: u64) -> (frames: Vec<u64>)
    ensures
        frames@ == frames_in_row_spec(row_phys_addr),
        frames@.len() == PAGES_PER_ROW,
{
    proof {
        lemma_row_base_fits(row_phys_addr);
    }
    let row_start: u64 = row_phys_addr & ROW_ALIGN_MASK;
    let mut frames: Vec<u64> = Vec::new();
    let mut i: u64 = 0;
    while i < PAGES_PER_ROW
        invariant
            0 <= i <= PAGES_PER_ROW,
            row_start == row_base(row_phys_addr),
            row_start + ROW_SIZE <= u64::MAX + 1,
            frames@.len() == i,
            forall|k: int| 0 <= k < i ==> frames@[k] == frames_in_row_spec(row_phys_addr)[k],
        decreases PAGES_PER_ROW - i,
    {
        frames.push(row_start + i * PAGE_SIZE);
        i = i + 1;
    }
    proof {
        assert(frames@ =~= frames_in_row_spec(row_phys_addr));
    }
    frames
}

/// Appends `x` to `v` unless it is already there, keeping `v` free of
/// duplicates.
pub fn push_unique(v: &mut Vec<u64>, x: u64)
    requires
        old(v)@.no_duplicates(),
    ensures
        final(v)@.no_duplicates(),
        old(v)@.contains(x) ==> final(v)@ == old(v)@,
        !old(v)@.contains(x) ==> final(v)@ == old(v)@.push(x),
        forall|f: u64| #[trigger] final(v)@.contains(f) <==> (old(v)@.contains(f) || f == x),
{
    let ghost pre = v@;
    let mut i: usize = 0;
    let mut seen = false;
    while i < v.len()
        invariant
            pre == v@,
            0 <= i <= pre.len(),
            seen == (exists|m: int| 0 <= m < i && #[trigger] pre[m] == x),
        decreases pre.len() - i,
    {
        if v[i] == x {
            proof {
                assert(pre[i as int] == x);
            }
            seen = true;
        }
        i = i + 1;
    }
    proof {
        assert(seen == pre.contains(x));
    }
    if !seen {
        v.push(x);
        proof {
            assert forall|k1: int, k2: int| 0 <= k1 < k2 < v@.len() implies v@[k1] != v@[k2] by {
                if k2 == v@.len() - 1 {
                    assert(pre[k1] == v@[k1]);
                    assert(pre.contains(v@[k1]));
                }
            }
            assert forall|f: u64| #[trigger] v@.contains(f) implies (pre.contains(f) || f
                == x) by {
                let m = choose|m: int| 0 <= m < v@.len() && v@[m] == f;
                if m < pre.len() {
                    assert(pre[m] == f);
                }
            }
            assert forall|f: u64| (pre.contains(f) || f == x) implies #[trigger] v@.contains(
                f,
            ) by {
                if pre.contains(f) {
                    let m = choose|m: int| 0 <= m < pre.len() && #[trigger] pre[m] == f;
                    assert(v@[m] == f);
                } else {
                    assert(v@.last() == f);
                }
            }
        }
    } else {
        proof {
            assert forall|f: u64| #[trigger] v@.contains(f) implies (pre.contains(f) || f
                == x) by {}
        }
    }
}

} // verus!
