use vstd::prelude::*;
use crate::config::PAGE_SIZE;

verus! {

// ---------------------------------------------------------------------------
// Binary page placement
//
// Once every victim frame is held and carries its page of the target binary,
// the held pages are remapped into one contiguous virtual range at the
// address the linker chose.  A page already sitting at a wanted address is
// first moved to a scratch address, so no held mapping is ever clobbered.
// The mremap syscalls happen outside the crate: this module plans them over
// a model of the held mappings and proves the layout the plan reaches.
// ---------------------------------------------------------------------------

/// One remap the caller must perform: move the page of `frame` to `new_va`.
#[derive(Debug, Clone, Copy, PartialEq, Eq, Structural)]
pub struct RemapAction {
    pub frame: u64,
    pub new_va: u64,
}

/// Index of the first entry holding `frame`, scanning from `i`; the length
/// when no entry does.
pub open spec fn find_frame_from(s: Seq<(u64, u64)>, frame: u64, i: nat) -> nat
    decreases s.len() - i,
{
    if i >= s.len() {
        s.len()
    } else if s[i as int].0 == frame {
        i
    } else {
        find_frame_from(s, frame, i + 1)
    }
}

/// Index of the first entry holding `frame`; the length when none does.
pub open spec fn find_frame(s: Seq<(u64, u64)>, frame: u64) -> nat {
    find_frame_from(s, frame, 0)
}

/// Whether some held mapping is backed by `frame`.
pub open spec fn has_frame(s: Seq<(u64, u64)>, frame: u64) -> bool {
    exists|k: int| 0 <= k < s.len() && (#[trigger] s[k]).0 == frame
}

/// Whether some held mapping sits at virtual address `va`.
pub open spec fn has_virt(s: Seq<(u64, u64)>, va: u64) -> bool {
    exists|k: int| 0 <= k < s.len() && (#[trigger] s[k]).1 == va
}

/// The virtual address of the mapping backed by `frame`.
pub open spec fn virt_of(s: Seq<(u64, u64)>, frame: u64) -> u64 {
    s[find_frame(s, frame) as int].1
}

/// Each frame and each virtual address appears at most once.
pub open spec fn model_wf(s: Seq<(u64, u64)>) -> bool {
    &&& forall|k1: int, k2: int|
        0 <= k1 < k2 < s.len() ==> (#[trigger] s[k1]).0 != (#[trigger] s[k2]).0
    &&& forall|k1: int, k2: int|
        0 <= k1 < k2 < s.len() ==> (#[trigger] s[k1]).1 != (#[trigger] s[k2]).1
}

/// The state after one action of a plan: the entry of the moved frame now
/// sits at the action's address.
pub open spec fn apply_action(s: Seq<(u64, u64)>, a: RemapAction) -> Seq<(u64, u64)> {
    if has_frame(s, a.frame) {
        s.update(find_frame(s, a.frame) as int, (a.frame, a.new_va))
    } else {
        s
    }
}

/// The state after a whole plan, applied in order.
pub open spec fn apply_plan(s: Seq<(u64, u64)>, plan: Seq<RemapAction>) -> Seq<(u64, u64)>
    decreases plan.len(),
{
    if plan.len() == 0 {
        s
    } else {
        apply_action(apply_plan(s, plan.drop_last()), plan.last())
    }
}

/// Every action of the plan moves a held frame to an address that is free
/// at that point, so replaying it never clobbers a held mapping.
pub open spec fn plan_ok(s: Seq<(u64, u64)>, plan: Seq<RemapAction>) -> bool {
    forall|i: int|
        0 <= i < plan.len() ==> has_frame(apply_plan(s, plan.take(i)), (#[trigger] plan[i]).frame)
            && !has_virt(apply_plan(s, plan.take(i)), plan[i].new_va)
}

proof fn lemma_find_frame_from(s: Seq<(u64, u64)>, frame: u64, i: nat)
    requires
        i <= s.len(),
    ensures
        i <= find_frame_from(s, frame, i) <= s.len(),
        find_frame_from(s, frame, i) < s.len() ==> s[find_frame_from(s, frame, i) as int].0
            == frame,
        forall|j: int|
            i <= j < find_frame_from(s, frame, i) ==> (#[trigger] s[j]).0 != frame,
        find_frame_from(s, frame, i) == s.len() ==> forall|j: int|
            i <= j < s.len() ==> (#[trigger] s[j]).0 != frame,
    decreases s.len() - i,
{
    if i < s.len() && s[i as int].0 != frame {
        lemma_find_frame_from(s, frame, i + 1);
    }
}

/// `find_frame` of a held frame lands on its unique entry.
proof fn lemma_find_frame(s: Seq<(u64, u64)>, frame: u64)
    ensures
        has_frame(s, frame) <==> find_frame(s, frame) < s.len(),
        find_frame(s, frame) < s.len() ==> s[find_frame(s, frame) as int].0 == frame,
        forall|j: int| 0 <= j < find_frame(s, frame) ==> (#[trigger] s[j]).0 != frame,
{
    lemma_find_frame_from(s, frame, 0);
    if find_frame(s, frame) < s.len() {
        assert(has_frame(s, frame));
    }
    if has_frame(s, frame) {
        let k = choose|k: int| 0 <= k < s.len() && (#[trigger] s[k]).0 == frame;
        if find_frame(s, frame) == s.len() {
            assert(s[k].0 != frame);
        }
    }
}

/// Model of the held mappings: each held frame with its current virtual
/// base address.
pub struct AddressSpaceModel {
    entries: Vec<(u64, u64)>,
}

impl AddressSpaceModel {
    /// The held mappings, each as frame address and virtual base.
    pub closed spec fn entries(self) -> Seq<(u64, u64)> {
        self.entries@
    }

    /// Builds the model from the held mappings, given with distinct frames
    /// and distinct virtual addresses.
    pub fn new(entries: Vec<(u64, u64)>) -> (m: AddressSpaceModel)
        requires
            model_wf(entries@),
        ensures
            m.entries() == entries@,
    {
        AddressSpaceModel { entries }
    }

    /// The held mappings, for the caller to walk.
    pub fn entries_ref(&self) -> (entries: &Vec<(u64, u64)>)
        ensures
            entries@ == self.entries(),
    {
        &self.entries
    }

    /// Index of the entry backed by `frame`, or the length when none is.
    fn find_frame_idx(&self, frame: u64) -> (r: usize)
        ensures
            r == find_frame(self.entries(), frame),
    {
        let ghost s = self.entries@;
        let mut i: usize = 0;
        while i < self.entries.len()
            invariant
                s == self.entries@,
                0 <= i <= s.len(),
                find_frame(s, frame) == find_frame_from(s, frame, i as nat),
            decreases s.len() - i,
        {
            if self.entries[i].0 == frame {
                return i;
            }
            i = i + 1;
        }
        i
    }

    /// Number of held mappings.
    fn count(&self) -> (n: usize)
        ensures
            n == self.entries().len(),
    {
        self.entries.len()
    }

    /// The mapping at index `i`.
    fn entry_at(&self, i: usize) -> (e: (u64, u64))
        requires
            i < self.entries().len(),
        ensures
            e == self.entries()[i as int],
    {
        self.entries[i]
    }

    /// Moves the mapping at index `idx` to the free address `new_va`.
    fn move_entry(&mut self, idx: usize, new_va: u64)
        requires
            model_wf(old(self).entries()),
            idx < old(self).entries().len(),
            !has_virt(old(self).entries(), new_va),
        ensures
            final(self).entries() == old(self).entries().update(
                idx as int,
                (old(self).entries()[idx as int].0, new_va),
            ),
            model_wf(final(self).entries()),
    {
        let frame = self.entries[idx].0;
        self.entries[idx] = (frame, new_va);
        proof {
            let s0 = old(self).entries@;
            let s1 = self.entries@;
            assert forall|k1: int, k2: int|
                0 <= k1 < k2 < s1.len() implies (#[trigger] s1[k1]).1 != (#[trigger] s1[k2]).1 by {
                if k1 != idx as int && k2 != idx as int {
                    assert(s1[k1] == s0[k1] && s1[k2] == s0[k2]);
                } else if k1 == idx as int {
                    if s1[k2].1 == new_va {
                        assert(s0[k2].1 == new_va);
                        assert(has_virt(s0, new_va));
                    }
                } else {
                    if s1[k1].1 == new_va {
                        assert(s0[k1].1 == new_va);
                        assert(has_virt(s0, new_va));
                    }
                }
            }
        }
    }

    /// Index of the entry sitting at `va`, or the length when none is.
    fn find_virt_idx(&self, va: u64) -> (r: usize)
        ensures
            r <= self.entries().len(),
            r < self.entries().len() ==> self.entries()[r as int].1 == va,
            r == self.entries().len() ==> !has_virt(self.entries(), va),
    {
        let ghost s = self.entries@;
        let mut i: usize = 0;
        while i < self.entries.len()
            invariant
                s == self.entries@,
                0 <= i <= s.len(),
                forall|k: int| 0 <= k < i ==> (#[trigger] s[k]).1 != va,
            decreases s.len() - i,
        {
            if self.entries[i].1 == va {
                return i;
            }
            i = i + 1;
        }
        i
    }
}

/// The virtual address of segment slot `j` in a range starting at
/// `base_va`.
pub open spec fn slot_va(base_va: u64, j: int) -> int {
    base_va + j * PAGE_SIZE
}

/// Number of pages a segment of `file_size` bytes occupies.
pub open spec fn page_count_of(file_size: u64) -> int {
    (file_size + PAGE_SIZE - 1) / (PAGE_SIZE as int)
}

/// Number of pages of the hidden segment.  The segment must hold only code,
/// so its file size and memory size have to coincide.
pub fn segment_page_count(file_size: u64, mem_size: u64) -> (r: Result<u64, ()>)
    ensures
        r is Ok <==> file_size == mem_size,
        r matches Ok(n) ==> n == page_count_of(file_size),
{
    if file_size != mem_size {
        return Err(());
    }
    let n: u64 = file_size / PAGE_SIZE + (if file_size % PAGE_SIZE != 0 {
        1
    } else {
        0
    });
    proof {
        assert(n == page_count_of(file_size)) by (nonlinear_arith)
            requires
                n == file_size / PAGE_SIZE + (if file_size % PAGE_SIZE != 0 {
                    1int
                } else {
                    0int
                }),
                PAGE_SIZE == 4096,
        ;
    }
    Ok(n)
}

/// Index of the segment page a file offset belongs to, relative to the
/// segment's start in the file.
pub fn page_index_of_offset(page_file_offset: u64, segment_file_offset: u64) -> (idx: u64)
    requires
        page_file_offset >= segment_file_offset,
    ensures
        idx == (page_file_offset - segment_file_offset) as int / (PAGE_SIZE as int),
{
    let diff: u64 = page_file_offset - segment_file_offset;
    let idx: u64 = diff >> crate::config::PAGE_SIZE_BITS;
    proof {
        assert(diff >> 12u64 == diff / 4096u64) by (bit_vector);
    }
    idx
}

/// The placement invariant read back from the address side: when the frame
/// chosen for segment slot `k` sits at the slot's address (as the planner
/// ensures), then under a well-formed state that address is held and backed
/// by exactly that frame — no other held mapping shares it.
pub proof fn lemma_segment_slot_backing(
    s: Seq<(u64, u64)>,
    segment_pages: Seq<u64>,
    base_va: u64,
    k: int,
)
    requires
        model_wf(s),
        0 <= k < segment_pages.len(),
        has_frame(s, segment_pages[k]),
        virt_of(s, segment_pages[k]) == base_va + k * PAGE_SIZE,
    ensures
        has_virt(s, (base_va + k * PAGE_SIZE) as u64),
        forall|e: int|
            0 <= e < s.len() && (#[trigger] s[e]).1 == base_va + k * PAGE_SIZE ==> s[e].0
                == segment_pages[k],
{
    let fk = find_frame(s, segment_pages[k]) as int;
    lemma_find_frame(s, segment_pages[k]);
    assert(s[fk].1 == base_va + k * PAGE_SIZE);
    assert(has_virt(s, (base_va + k * PAGE_SIZE) as u64));
    assert forall|e: int|
        0 <= e < s.len() && (#[trigger] s[e]).1 == base_va + k * PAGE_SIZE implies s[e].0
        == segment_pages[k] by {
        if e != fk {
            if e < fk {
                assert(s[e].1 != s[fk].1);
            } else {
                assert(s[fk].1 != s[e].1);
            }
        }
    }
}

/// Two states with the same frames in the same order agree on frame lookup.
proof fn lemma_same_frames(s1: Seq<(u64, u64)>, s2: Seq<(u64, u64)>, i: nat)
    requires
        s1.len() == s2.len(),
        i <= s1.len(),
        forall|e: int| 0 <= e < s1.len() ==> (#[trigger] s1[e]).0 == (#[trigger] s2[e]).0,
    ensures
        forall|f: u64| find_frame_from(s1, f, i) == find_frame_from(s2, f, i),
    decreases s1.len() - i,
{
    if i < s1.len() {
        lemma_same_frames(s1, s2, i + 1);
        assert forall|f: u64| find_frame_from(s1, f, i) == find_frame_from(s2, f, i) by {
            assert(find_frame_from(s1, f, i + 1) == find_frame_from(s2, f, i + 1));
        }
    }
}

/// Appending an action to a plan: the new state is the action applied to the
/// old final state, and an admissible action keeps the plan admissible.
proof fn lemma_plan_push(s: Seq<(u64, u64)>, plan: Seq<RemapAction>, a: RemapAction)
    requires
        plan_ok(s, plan),
        has_frame(apply_plan(s, plan), a.frame),
        !has_virt(apply_plan(s, plan), a.new_va),
    ensures
        apply_plan(s, plan.push(a)) == apply_action(apply_plan(s, plan), a),
        plan_ok(s, plan.push(a)),
{
    let plan1 = plan.push(a);
    assert(plan1.drop_last() =~= plan);
    assert(plan1.last() == a);
    assert forall|i: int|
        0 <= i < plan1.len() implies has_frame(
        apply_plan(s, plan1.take(i)),
        (#[trigger] plan1[i]).frame,
    ) && !has_virt(apply_plan(s, plan1.take(i)), plan1[i].new_va) by {
        if i < plan.len() {
            assert(plan1.take(i) =~= plan.take(i));
            assert(plan1[i] == plan[i]);
        } else {
            assert(plan1.take(i) =~= plan);
        }
    }
}

impl AddressSpaceModel {
    /// Plans the remapping of the segment pages into one contiguous range
    /// starting at `base_va`: page `k` goes to `base_va + k` pages.  A held
    /// mapping found sitting at a wanted address is first moved to one of
    /// the probed `scratch` addresses.  Replaying the returned plan in order
    /// performs the surgery without ever unmapping a held page; afterwards
    /// the range is backed exactly by the segment pages, in order, and every
    /// held mapping that was neither a segment page nor in the way keeps its
    /// address.
    pub fn remap_segment(
        &mut self,
        segment_pages: &Vec<u64>,
        base_va: u64,
        scratch: &Vec<u64>,
    ) -> (plan: Vec<RemapAction>)
        requires
            model_wf(old(self).entries()),
            segment_pages@.no_duplicates(),
            forall|k: int|
                0 <= k < segment_pages@.len() ==> has_frame(
                    old(self).entries(),
                    #[trigger] segment_pages@[k],
                ),
            base_va + segment_pages@.len() * PAGE_SIZE <= u64::MAX + 1,
            scratch@.len() >= segment_pages@.len(),
            scratch@.no_duplicates(),
            forall|t: int|
                0 <= t < scratch@.len() ==> !has_virt(old(self).entries(), #[trigger] scratch@[t]),
            forall|t: int|
                0 <= t < scratch@.len() ==> !(base_va <= #[trigger] scratch@[t] < base_va
                    + segment_pages@.len() * PAGE_SIZE),
        ensures
            model_wf(final(self).entries()),
            forall|f: u64|
                has_frame(final(self).entries(), f) <==> has_frame(old(self).entries(), f),
            forall|k: int|
                0 <= k < segment_pages@.len() ==> virt_of(
                    final(self).entries(),
                    #[trigger] segment_pages@[k],
                ) == base_va + k * PAGE_SIZE,
            forall|f: u64|
                has_frame(old(self).entries(), f) && !segment_pages@.contains(f) && !(base_va
                    <= virt_of(old(self).entries(), f) < base_va + segment_pages@.len()
                    * PAGE_SIZE) ==> virt_of(final(self).entries(), f) == virt_of(
                    old(self).entries(),
                    f,
                ),
            plan_ok(old(self).entries(), plan@),
            apply_plan(old(self).entries(), plan@) == final(self).entries(),
    {
        let ghost orig = old(self).entries();
        let ghost n = segment_pages@.len() as int;
        let mut plan: Vec<RemapAction> = Vec::new();
        let mut s_idx: usize = 0;
        let mut k: usize = 0;
        while k < segment_pages.len()
            invariant
                model_wf(orig),
                orig == old(self).entries(),
                segment_pages@.no_duplicates(),
                n == segment_pages@.len(),
                forall|k0: int|
                    0 <= k0 < n ==> has_frame(orig, #[trigger] segment_pages@[k0]),
                base_va + n * PAGE_SIZE <= u64::MAX + 1,
                scratch@.len() >= n,
                scratch@.no_duplicates(),
                forall|t: int| 0 <= t < scratch@.len() ==> !has_virt(orig, #[trigger] scratch@[t]),
                forall|t: int|
                    0 <= t < scratch@.len() ==> !(base_va <= #[trigger] scratch@[t] < base_va + n
                        * PAGE_SIZE),
                0 <= k <= n,
                0 <= s_idx <= k,
                model_wf(self.entries()),
                forall|f: u64| has_frame(self.entries(), f) <==> has_frame(orig, f),
                forall|j: int|
                    0 <= j < k ==> virt_of(self.entries(), #[trigger] segment_pages@[j]) == base_va
                        + j * PAGE_SIZE,
                forall|f: u64|
                    has_frame(orig, f) && !segment_pages@.contains(f) && !(base_va <= virt_of(
                        orig,
                        f,
                    ) < base_va + n * PAGE_SIZE) ==> virt_of(self.entries(), f) == virt_of(
                        orig,
                        f,
                    ),
                forall|e: int|
                    0 <= e < self.entries().len() ==> has_virt(
                        orig,
                        (#[trigger] self.entries()[e]).1,
                    ) || (exists|j: int|
                        0 <= j < k && self.entries()[e].1 == #[trigger] slot_va(base_va, j)) || (
                    exists|t: int| 0 <= t < s_idx && self.entries()[e].1 == scratch@[t]),
                plan_ok(orig, plan@),
                apply_plan(orig, plan@) == self.entries(),
            decreases n - k,
        {
            proof {
                assert((k as int) * (PAGE_SIZE as int) + PAGE_SIZE <= n * PAGE_SIZE)
                    by (nonlinear_arith)
                    requires
                        0 <= k < n,
                        PAGE_SIZE > 0,
                ;
                assert((k as int) * (PAGE_SIZE as int) >= 0) by (nonlinear_arith)
                    requires
                        k >= 0,
                        PAGE_SIZE > 0,
                ;
            }
            let target_va: u64 = base_va + (k as u64) * PAGE_SIZE;
            let ghost cur0 = self.entries();
            let occ = self.find_virt_idx(target_va);
            if occ < self.count() {
                let evicted = self.entry_at(occ);
                let sva = scratch[s_idx];
                proof {
                    assert forall|e: int|
                        0 <= e < cur0.len() implies (#[trigger] cur0[e]).1 != sva by {
                        if cur0[e].1 == sva {
                            if has_virt(orig, cur0[e].1) {
                                assert(!has_virt(orig, scratch@[s_idx as int]));
                            } else if exists|j: int|
                                0 <= j < k && cur0[e].1 == #[trigger] slot_va(base_va, j) {
                                let j = choose|j: int|
                                    0 <= j < k && cur0[e].1 == #[trigger] slot_va(base_va, j);
                                assert((j as int) * (PAGE_SIZE as int) + PAGE_SIZE <= n
                                    * PAGE_SIZE) by (nonlinear_arith)
                                    requires
                                        0 <= j < n,
                                        PAGE_SIZE > 0,
                                ;
                                assert((j as int) * (PAGE_SIZE as int) >= 0) by (nonlinear_arith)
                                    requires
                                        j >= 0,
                                        PAGE_SIZE > 0,
                                ;
                                assert(base_va <= scratch@[s_idx as int] < base_va + n
                                    * PAGE_SIZE);
                            } else {
                                let t = choose|t: int|
                                    0 <= t < s_idx && cur0[e].1 == scratch@[t];
                                assert(scratch@[t] == scratch@[s_idx as int]);
                            }
                        }
                    }
                    assert(!has_virt(cur0, sva));
                }
                self.move_entry(occ, sva);
                let ghost pre_plan = plan@;
                plan.push(RemapAction { frame: evicted.0, new_va: sva });
                s_idx = s_idx + 1;
                proof {
                    let cur1 = self.entries();
                    lemma_find_frame(cur0, evicted.0);
                    assert forall|j: int|
                        0 <= j < find_frame(cur0, evicted.0) implies (#[trigger] cur0[j]).0
                        != evicted.0 by {}
                    assert(find_frame(cur0, evicted.0) == occ as nat) by {
                        lemma_find_frame_from(cur0, evicted.0, 0);
                        let r = find_frame(cur0, evicted.0);
                        if r < occ as nat {
                            assert(cur0[r as int].0 == evicted.0);
                            assert(cur0[occ as int].0 == evicted.0);
                        } else if r > occ as nat {
                            assert(cur0[occ as int].0 != evicted.0);
                        }
                    }
                    assert(apply_action(cur0, RemapAction { frame: evicted.0, new_va: sva })
                        == cur1);
                    assert(has_frame(cur0, evicted.0)) by {
                        assert(cur0[occ as int].0 == evicted.0);
                    }
                    lemma_plan_push(orig, pre_plan, RemapAction { frame: evicted.0, new_va: sva });
                    assert(plan@ =~= pre_plan.push(RemapAction { frame: evicted.0, new_va: sva }));
                    lemma_same_frames(cur0, cur1, 0);
                    assert forall|f: u64| has_frame(cur1, f) <==> has_frame(cur0, f) by {
                        lemma_find_frame(cur0, f);
                        lemma_find_frame(cur1, f);
                    }
                    assert forall|j: int|
                        0 <= j < k implies virt_of(cur1, #[trigger] segment_pages@[j]) == base_va
                        + j * PAGE_SIZE by {
                        let f = segment_pages@[j];
                        let e = find_frame(cur0, f);
                        lemma_find_frame(cur0, f);
                        assert(virt_of(cur0, f) == base_va + j * PAGE_SIZE);
                        assert((j as int) * (PAGE_SIZE as int) + PAGE_SIZE <= (k as int)
                            * PAGE_SIZE) by (nonlinear_arith)
                            requires
                                0 <= j < k,
                                PAGE_SIZE > 0,
                        ;
                        assert((j as int) * (PAGE_SIZE as int) >= 0) by (nonlinear_arith)
                            requires
                                j >= 0,
                                PAGE_SIZE > 0,
                        ;
                        assert((k as int) * (PAGE_SIZE as int) <= n * PAGE_SIZE)
                            by (nonlinear_arith)
                            requires
                                k <= n,
                                PAGE_SIZE > 0,
                        ;
                        assert(cur0[e as int].1 != target_va);
                        assert(e != occ as nat);
                        assert(cur1[e as int] == cur0[e as int]);
                    }
                    assert forall|f: u64|
                        has_frame(orig, f) && !segment_pages@.contains(f) && !(base_va <= virt_of(
                            orig,
                            f,
                        ) < base_va + n * PAGE_SIZE) implies virt_of(cur1, f) == virt_of(
                        orig,
                        f,
                    ) by {
                        let e = find_frame(cur0, f);
                        lemma_find_frame(cur0, f);
                        assert(virt_of(cur0, f) == virt_of(orig, f));
                        assert((k as int) * (PAGE_SIZE as int) >= 0 && (k as int) * (
                        PAGE_SIZE as int) + PAGE_SIZE <= n * PAGE_SIZE) by (nonlinear_arith)
                            requires
                                0 <= k < n,
                                PAGE_SIZE > 0,
                        ;
                        assert(cur0[e as int].1 != target_va);
                        assert(e != occ as nat);
                        assert(cur1[e as int] == cur0[e as int]);
                    }
                }
            }
            let ghost cur1 = self.entries();
            let fi = self.find_frame_idx(segment_pages[k]);
            proof {
                assert(has_frame(orig, segment_pages@[k as int]));
                assert(has_frame(cur1, segment_pages@[k as int]));
                lemma_find_frame(cur1, segment_pages@[k as int]);
                assert(fi < cur1.len());
                assert forall|e: int| 0 <= e < cur1.len() implies (#[trigger] cur1[e]).1
                    != target_va by {
                    if cur1[e].1 == target_va {
                        if cur1 == cur0 {
                            assert(!has_virt(cur0, target_va));
                        } else {
                            assert((k as int) * (PAGE_SIZE as int) >= 0 && (k as int) * (
                            PAGE_SIZE as int) + PAGE_SIZE <= n * PAGE_SIZE) by (nonlinear_arith)
                                requires
                                    0 <= k < n,
                                    PAGE_SIZE > 0,
                            ;
                            assert(e != occ as int);
                            assert(cur1[e] == cur0[e]);
                            assert(cur0[occ as int].1 == target_va);
                            assert(model_wf(cur0));
                            if e < occ as int {
                                assert(cur0[e].1 != cur0[occ as int].1);
                            } else {
                                assert(cur0[occ as int].1 != cur0[e].1);
                            }
                        }
                    }
                }
                assert(!has_virt(cur1, target_va));
            }
            self.move_entry(fi, target_va);
            let ghost pre_plan2 = plan@;
            plan.push(RemapAction { frame: segment_pages[k], new_va: target_va });
            proof {
                let cur2 = self.entries();
                let f_k = segment_pages@[k as int];
                lemma_find_frame(cur1, f_k);
                assert(find_frame(cur1, f_k) == fi as nat);
                assert(cur1[fi as int].0 == f_k);
                assert(apply_action(cur1, RemapAction { frame: f_k, new_va: target_va }) == cur2);
                lemma_plan_push(orig, pre_plan2, RemapAction { frame: f_k, new_va: target_va });
                assert(plan@ =~= pre_plan2.push(RemapAction { frame: f_k, new_va: target_va }));
                lemma_same_frames(cur1, cur2, 0);
                assert forall|f: u64| has_frame(cur2, f) <==> has_frame(cur1, f) by {
                    lemma_find_frame(cur1, f);
                    lemma_find_frame(cur2, f);
                }
                assert forall|j: int|
                    0 <= j <= k implies virt_of(cur2, #[trigger] segment_pages@[j]) == base_va + j
                    * PAGE_SIZE by {
                    let f = segment_pages@[j];
                    let e = find_frame(cur1, f);
                    lemma_find_frame(cur1, f);
                    lemma_same_frames(cur1, cur2, 0);
                    assert(find_frame(cur2, f) == e);
                    if j == k as int {
                        assert(e == fi as nat);
                        assert(cur2[e as int].1 == target_va);
                    } else {
                        assert(f != f_k);
                        assert(cur1[e as int].0 == f);
                        assert(e != fi as nat);
                        assert(cur2[e as int] == cur1[e as int]);
                        assert(virt_of(cur1, f) == base_va + j * PAGE_SIZE);
                    }
                }
                assert forall|f: u64|
                    has_frame(orig, f) && !segment_pages@.contains(f) && !(base_va <= virt_of(
                        orig,
                        f,
                    ) < base_va + n * PAGE_SIZE) implies virt_of(cur2, f) == virt_of(
                    orig,
                    f,
                ) by {
                    assert(f != f_k) by {
                        assert(segment_pages@[k as int] == f_k);
                    }
                    let e = find_frame(cur1, f);
                    lemma_find_frame(cur1, f);
                    lemma_same_frames(cur1, cur2, 0);
                    assert(virt_of(cur1, f) == virt_of(orig, f));
                    assert(cur1[e as int].0 == f);
                    assert(e != fi as nat);
                    assert(cur2[e as int] == cur1[e as int]);
                }
                assert forall|e: int|
                    0 <= e < cur2.len() implies has_virt(orig, (#[trigger] cur2[e]).1) || (exists|
                    j: int,
                |
                    0 <= j < k + 1 && cur2[e].1 == #[trigger] slot_va(base_va, j)) || (exists|
                    t: int,
                |
                    0 <= t < s_idx && cur2[e].1 == scratch@[t]) by {
                    if e == fi as int {
                        assert(cur2[e].1 == slot_va(base_va, k as int));
                    } else {
                        assert(cur2[e] == cur1[e]);
                        if occ < cur0.len() && cur1 != cur0 {
                            if e == occ as int {
                                assert(cur1[e].1 == scratch@[s_idx - 1]);
                            } else {
                                assert(cur1[e] == cur0[e]);
                            }
                        }
                    }
                }
            }
            k = k + 1;
        }
        proof {
            assert forall|k0: int|
                0 <= k0 < segment_pages@.len() implies virt_of(
                self.entries(),
                #[trigger] segment_pages@[k0],
            ) == base_va + k0 * PAGE_SIZE by {}
        }
        plan
    }
}

} // verus!
