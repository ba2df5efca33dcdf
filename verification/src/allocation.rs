use vstd::prelude::*;

verus! {

// ---------------------------------------------------------------------------
// Frame acquisition
//
// The engine allocates anonymous pages one by one until the wanted physical
// frames are all captured.  The mapping syscalls and pagemap reads happen
// outside the crate; this model decides, for each page the kernel handed
// out, whether to keep it, and tracks which targets are still missing.
// ---------------------------------------------------------------------------

/// Bookkeeping of one acquisition run: the target frames still missing and
/// the pages kept so far, each as its frame address and virtual alias.
pub struct PageAllocator {
    remaining: Vec<u64>,
    acquired: Vec<(u64, u64)>,
    initial: Ghost<Set<u64>>,
}

/// The frame addresses of the kept pages.
pub open spec fn acquired_frames(acquired: Seq<(u64, u64)>) -> Set<u64> {
    Set::new(|f: u64| exists|k: int| 0 <= k < acquired.len() && (#[trigger] acquired[k]).0 == f)
}

impl PageAllocator {
    /// The target frames not captured yet.
    pub closed spec fn remaining_frames(self) -> Seq<u64> {
        self.remaining@
    }

    /// The kept pages: frame address and virtual alias, in acquisition
    /// order.
    pub closed spec fn acquired_pages(self) -> Seq<(u64, u64)> {
        self.acquired@
    }

    /// The frames the run set out to capture.
    pub closed spec fn initial_targets(self) -> Set<u64> {
        self.initial@
    }

    /// Remaining and acquired frames are disjoint, without duplicates, and
    /// together they are exactly the initial targets.
    pub closed spec fn wf(self) -> bool {
        &&& self.remaining@.no_duplicates()
        &&& forall|k1: int, k2: int|
            0 <= k1 < k2 < self.acquired@.len() ==> (#[trigger] self.acquired@[k1]).0 != (
            #[trigger] self.acquired@[k2]).0
        &&& forall|k: int|
            0 <= k < self.acquired@.len() ==> !self.remaining@.contains(
                (#[trigger] self.acquired@[k]).0,
            )
        &&& forall|f: u64|
            #[trigger] self.initial@.contains(f) <==> (self.remaining@.contains(f)
                || acquired_frames(self.acquired@).contains(f))
        &&& forall|f: u64| self.remaining@.contains(f) ==> self.initial@.contains(f)
    }

    /// Starts a run after the wanted frames, given without duplicates.
    pub fn new(targets: Vec<u64>) -> (a: PageAllocator)
        requires
            targets@.no_duplicates(),
        ensures
            a.wf(),
            a.remaining_frames() == targets@,
            a.acquired_pages().len() == 0,
            a.initial_targets() == targets@.to_set(),
    {
        let ghost initial = targets@.to_set();
        PageAllocator { remaining: targets, acquired: Vec::new(), initial: Ghost(initial) }
    }

    /// Offers one freshly allocated page, resolved to `frame_addr` and
    /// aliased at `virt_addr`.  A wanted page is kept and its target struck
    /// off; any other page is left for the caller's disposable pile.
    pub fn offer(&mut self, frame_addr: u64, virt_addr: u64) -> (wanted: bool)
        requires
            old(self).wf(),
        ensures
            final(self).wf(),
            wanted == old(self).remaining_frames().contains(frame_addr),
            final(self).initial_targets() == old(self).initial_targets(),
            wanted ==> final(self).remaining_frames() == old(self).remaining_frames().remove_value(
                frame_addr,
            ) && final(self).acquired_pages() == old(self).acquired_pages().push(
                (frame_addr, virt_addr),
            ),
            !wanted ==> *final(self) == *old(self),
    {
        let ghost pre = *self;
        let mut i: usize = 0;
        while i < self.remaining.len()
            invariant
                *self == pre,
                pre == *old(self),
                pre.wf(),
                0 <= i <= self.remaining@.len(),
                forall|k: int| 0 <= k < i ==> self.remaining@[k] != frame_addr,
            decreases self.remaining@.len() - i,
        {
            if self.remaining[i] == frame_addr {
                proof {
                    pre.remaining@.index_of_first_ensures(frame_addr);
                    assert(pre.remaining@.index_of_first(frame_addr) == Some(i as int));
                }
                self.remaining.remove(i);
                self.acquired.push((frame_addr, virt_addr));
                proof {
                    let rem_pre = pre.remaining@;
                    let rem = self.remaining@;
                    assert(rem == rem_pre.remove(i as int));
                    rem_pre.remove_ensures(i as int);
                    assert forall|k1: int, k2: int|
                        0 <= k1 < k2 < rem.len() implies rem[k1] != rem[k2] by {
                        let m1 = if k1 < i as int { k1 } else { k1 + 1 };
                        let m2 = if k2 < i as int { k2 } else { k2 + 1 };
                        assert(rem[k1] == rem_pre[m1] && rem[k2] == rem_pre[m2]);
                    }
                    assert forall|f: u64| #[trigger] rem.contains(f) implies rem_pre.contains(f)
                        && f != frame_addr by {
                        let k = choose|k: int| 0 <= k < rem.len() && rem[k] == f;
                        let m = if k < i as int { k } else { k + 1 };
                        assert(rem_pre[m] == f);
                        if f == frame_addr {
                            assert(rem_pre[i as int] == frame_addr);
                        }
                    }
                    assert forall|f: u64|
                        rem_pre.contains(f) && f != frame_addr implies rem.contains(f) by {
                        let m = choose|m: int| 0 <= m < rem_pre.len() && rem_pre[m] == f;
                        let k = if m < i as int { m } else { m - 1 };
                        assert(rem[k] == f);
                    }
                    assert forall|f: u64| #[trigger] self.initial@.contains(f) implies (
                    rem.contains(f) || acquired_frames(self.acquired@).contains(f)) by {
                        if f == frame_addr {
                            assert(self.acquired@[self.acquired@.len() - 1].0 == f);
                        } else if rem_pre.contains(f) {
                        } else {
                            assert(acquired_frames(pre.acquired@).contains(f));
                            let k = choose|k: int|
                                0 <= k < pre.acquired@.len() && (#[trigger] pre.acquired@[k]).0
                                    == f;
                            assert(self.acquired@[k].0 == f);
                        }
                    }
                    assert forall|f: u64|
                        (rem.contains(f) || acquired_frames(self.acquired@).contains(
                            f,
                        )) implies #[trigger] self.initial@.contains(f) by {
                        if rem.contains(f) {
                        } else {
                            let k = choose|k: int|
                                0 <= k < self.acquired@.len() && (#[trigger] self.acquired@[k]).0
                                    == f;
                            if k < pre.acquired@.len() {
                                assert(pre.acquired@[k].0 == f);
                                assert(acquired_frames(pre.acquired@).contains(f));
                            } else {
                                assert(f == frame_addr);
                                assert(pre.remaining@.contains(frame_addr));
                            }
                        }
                    }
                    assert(self.remaining@ =~= pre.remaining@.remove_value(frame_addr));
                }
                return true;
            }
            i = i + 1;
        }
        proof {
            assert(!pre.remaining@.contains(frame_addr));
        }
        false
    }

    /// How many targets are still missing.
    pub fn remaining_count(&self) -> (n: usize)
        ensures
            n == self.remaining_frames().len(),
    {
        self.remaining.len()
    }

    /// Whether the run may stop: no more than `limit` targets are missing.
    /// A limit of zero demands that every target was found.
    pub fn done(&self, limit: usize) -> (d: bool)
        ensures
            d == (self.remaining_frames().len() <= limit),
    {
        self.remaining.len() <= limit
    }

    /// The kept pages, for the caller to key its held mappings by.
    pub fn acquired_pages_ref(&self) -> (pages: &Vec<(u64, u64)>)
        ensures
            pages@ == self.acquired_pages(),
    {
        &self.acquired
    }
}

/// A finished run with no missing targets has captured every initial
/// target, each recorded under the frame address it resolved to.
pub proof fn lemma_all_targets_acquired(a: PageAllocator)
    requires
        a.wf(),
        a.remaining_frames().len() == 0,
    ensures
        forall|f: u64|
            a.initial_targets().contains(f) ==> acquired_frames(a.acquired_pages()).contains(f),
{
}

} // verus!
