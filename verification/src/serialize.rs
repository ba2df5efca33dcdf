use vstd::prelude::*;
use vstd::string::*;
use crate::text::{digit_char, digit_val};

verus! {

broadcast use vstd::std_specs::hash::group_hash_axioms;

// ---------------------------------------------------------------------------
// Attack configuration data model
//
// The structures mirror `attack_config.toml`: victim frames with the bits
// expected to flip, and named aggressor patterns of rows with their init
// values.  Validation and the textual codecs live here; reading the file
// itself stays outside the crate.
// ---------------------------------------------------------------------------

/// One expected bit flip inside a byte.
#[derive(Debug, Clone, Copy, PartialEq, Eq, Hash, Structural)]
pub struct BitFlip {
    /// Bit position inside the byte, 0 to 7.
    pub flip_index: u8,
    /// `true` for a 0-to-1 flip, `false` for 1-to-0.
    pub flip_direction: bool,
}

/// The two-character text form of a bit flip: the index digit and a sign.
pub open spec fn bitflip_text(b: BitFlip) -> Seq<char> {
    seq![
        digit_char(b.flip_index as u64),
        if b.flip_direction {
            '+'
        } else {
            '-'
        },
    ]
}

/// The bit flip a two-character text denotes, if it is well formed: the
/// index digit must name a bit of a byte, below eight.
pub open spec fn bitflip_of_text(s: Seq<char>) -> Option<BitFlip> {
    if s.len() == 2 && digit_val(s[0]) < 8 && (s[1] == '+' || s[1] == '-') {
        Some(BitFlip { flip_index: digit_val(s[0]) as u8, flip_direction: s[1] == '+' })
    } else {
        None
    }
}

impl BitFlip {
    /// Writes the flip in its `"<idx><+|->"` text form.
    pub fn to_text(&self) -> (s: String)
        requires
            self.flip_index < 8,
        ensures
            s@ == bitflip_text(*self),
    {
        let mut s = String::new();
        crate::text::push_digit_char(&mut s, self.flip_index as u64);
        if self.flip_direction {
            proof {
                reveal_strlit("+");
            }
            s.append("+");
        } else {
            proof {
                reveal_strlit("-");
            }
            s.append("-");
        }
        proof {
            assert(s@ =~= bitflip_text(*self));
        }
        s
    }

    /// Parses the `"<idx><+|->"` text form of a flip.
    pub fn parse_text(s: &str) -> (r: Option<BitFlip>)
        ensures
            r == bitflip_of_text(s@),
    {
        if s.unicode_len() != 2 {
            return None;
        }
        let c0 = s.get_char(0);
        let c1 = s.get_char(1);
        let d = crate::text::digit_val_of(c0);
        if d >= 8 {
            return None;
        }
        if c1 == '+' {
            Some(BitFlip { flip_index: d as u8, flip_direction: true })
        } else if c1 == '-' {
            Some(BitFlip { flip_index: d as u8, flip_direction: false })
        } else {
            None
        }
    }
}

/// A bit flip's text form parses back to the same flip.
pub proof fn lemma_bitflip_text_round_trip(b: BitFlip)
    requires
        b.flip_index < 8,
    ensures
        bitflip_of_text(bitflip_text(b)) == Some(b),
{
    let s = bitflip_text(b);
    assert(digit_val(s[0]) == b.flip_index as u64);
}

/// Ghost image of a `RowAndInitValue`.
pub ghost struct RowSpec {
    pub frames: Seq<u64>,
    pub init: u8,
}

/// One DRAM row used as an aggressor: every page frame in the row, and the
/// byte value the row is initialised to before hammering.
#[derive(Debug)]
pub struct RowAndInitValue {
    /// All physical page frames of the row, lowest first.
    pub frames: Vec<u64>,
    /// Byte value the row is filled with.
    pub init: u8,
}

impl View for RowAndInitValue {
    type V = RowSpec;

    open spec fn view(&self) -> RowSpec {
        RowSpec { frames: self.frames@, init: self.init }
    }
}

impl RowAndInitValue {
    /// A row as the codecs and the validator expect it: built from
    /// `get_frames_in_row`, so it covers a whole row and is non-empty.
    pub open spec fn wf(self) -> bool {
        self.frames@.len() > 0
    }
}

/// An ordered sequence of aggressor rows hammered together.
#[derive(Debug)]
pub struct AggressorPattern {
    pub pattern: Vec<RowAndInitValue>,
}

impl View for AggressorPattern {
    type V = Seq<RowSpec>;

    open spec fn view(&self) -> Seq<RowSpec> {
        Seq::new(self.pattern@.len(), |i: int| self.pattern@[i]@)
    }
}

/// Ghost image of a `VictimBit`.
pub ghost struct VictimBitSpec {
    pub offset: u64,
    pub bitflip: BitFlip,
    pub aggr_pattern_key: Seq<char>,
}

/// One bit expected to flip, at a byte offset inside its victim page.
#[derive(Debug)]
pub struct VictimBit {
    /// Byte offset inside the page, below the page size.
    pub offset: u64,
    pub bitflip: BitFlip,
    /// Key of the aggressor pattern that produces this flip.
    pub aggr_pattern_key: String,
}

impl View for VictimBit {
    type V = VictimBitSpec;

    open spec fn view(&self) -> VictimBitSpec {
        VictimBitSpec {
            offset: self.offset,
            bitflip: self.bitflip,
            aggr_pattern_key: self.aggr_pattern_key@,
        }
    }
}

/// Ghost image of a `VictimFrame`.
pub ghost struct VictimFrameSpec {
    pub page_file_offset: Option<u64>,
    pub frame_addr: u64,
    pub victim_bits: Seq<VictimBitSpec>,
}

/// One victim page frame with the bits expected to flip in it.
#[derive(Debug)]
pub struct VictimFrame {
    /// Offset of the binary's page to be placed in this frame, if any.
    pub page_file_offset: Option<u64>,
    /// Physical address of the victim page frame.
    pub frame_addr: u64,
    pub victim_bits: Vec<VictimBit>,
}

impl View for VictimFrame {
    type V = VictimFrameSpec;

    open spec fn view(&self) -> VictimFrameSpec {
        VictimFrameSpec {
            page_file_offset: self.page_file_offset,
            frame_addr: self.frame_addr,
            victim_bits: Seq::new(self.victim_bits@.len(), |i: int| self.victim_bits@[i]@),
        }
    }
}

/// Ghost image of an `AttackConfig`.
pub ghost struct AttackConfigSpec {
    pub hammer_count: u64,
    pub segment_virt_addr: u64,
    pub victim_frames: Seq<VictimFrameSpec>,
    pub aggressor_patterns: Seq<(Seq<char>, Seq<RowSpec>)>,
}

/// The attack plan: how often to hammer, where the target segment goes, the
/// victim frames, and the aggressor patterns by key.
#[derive(Debug)]
pub struct AttackConfig {
    pub hammer_count: u64,
    /// Virtual base address the target segment is remapped to.
    pub segment_virt_addr: u64,
    pub victim_frames: Vec<VictimFrame>,
    /// Patterns by key; the keys are distinct, as in the table they are read from.
    pub aggressor_patterns: Vec<(String, AggressorPattern)>,
}

impl View for AttackConfig {
    type V = AttackConfigSpec;

    open spec fn view(&self) -> AttackConfigSpec {
        AttackConfigSpec {
            hammer_count: self.hammer_count,
            segment_virt_addr: self.segment_virt_addr,
            victim_frames: Seq::new(self.victim_frames@.len(), |i: int| self.victim_frames@[i]@),
            aggressor_patterns: Seq::new(
                self.aggressor_patterns@.len(),
                |i: int| (self.aggressor_patterns@[i].0@, self.aggressor_patterns@[i].1@),
            ),
        }
    }
}

// --- flattening helpers over the ghost image ---

/// All frames of a row sequence, in order.
pub open spec fn frames_of_rows(rows: Seq<RowSpec>) -> Seq<u64>
    decreases rows.len(),
{
    if rows.len() == 0 {
        Seq::empty()
    } else {
        frames_of_rows(rows.drop_last()) + rows.last().frames
    }
}

/// All rows of all patterns, in pattern order.
pub open spec fn rows_of_patterns(ps: Seq<(Seq<char>, Seq<RowSpec>)>) -> Seq<RowSpec>
    decreases ps.len(),
{
    if ps.len() == 0 {
        Seq::empty()
    } else {
        rows_of_patterns(ps.drop_last()) + ps.last().1
    }
}

/// Every frame used by an aggressor pattern of `c`.
pub open spec fn aggr_frames_of(c: AttackConfigSpec) -> Seq<u64> {
    frames_of_rows(rows_of_patterns(c.aggressor_patterns))
}

/// Every frame of every row that holds one of the victim frames `vfs`.
pub open spec fn victim_row_frames_seq(vfs: Seq<VictimFrameSpec>) -> Seq<u64>
    decreases vfs.len(),
{
    if vfs.len() == 0 {
        Seq::empty()
    } else {
        victim_row_frames_seq(vfs.drop_last()) + crate::utils::frames_in_row_spec(
            vfs.last().frame_addr,
        )
    }
}

/// Every frame of every row that holds a victim frame of `c`.
pub open spec fn victim_row_frames_of(c: AttackConfigSpec) -> Seq<u64> {
    victim_row_frames_seq(c.victim_frames)
}

proof fn lemma_frames_of_rows_concat(a: Seq<RowSpec>, b: Seq<RowSpec>)
    ensures
        frames_of_rows(a + b) == frames_of_rows(a) + frames_of_rows(b),
    decreases b.len(),
{
    if b.len() == 0 {
        assert(a + b =~= a);
        assert(frames_of_rows(a) + Seq::<u64>::empty() =~= frames_of_rows(a));
    } else {
        lemma_frames_of_rows_concat(a, b.drop_last());
        assert((a + b).drop_last() =~= a + b.drop_last());
        assert((a + b).last() == b.last());
        assert(frames_of_rows(a) + frames_of_rows(b.drop_last()) + b.last().frames
            =~= frames_of_rows(a) + (frames_of_rows(b.drop_last()) + b.last().frames));
    }
}

impl AggressorPattern {
    /// Every row of the pattern is well formed.
    pub open spec fn rows_wf(self) -> bool {
        forall|i: int| 0 <= i < self.pattern@.len() ==> (#[trigger] self.pattern@[i]).wf()
    }
}

impl AttackConfig {
    /// Builds a config from its parts.  The pattern keys must be distinct, as
    /// they are in the table form the configuration file holds.
    pub fn new(
        hammer_count: u64,
        segment_virt_addr: u64,
        victim_frames: Vec<VictimFrame>,
        aggressor_patterns: Vec<(String, AggressorPattern)>,
    ) -> (c: AttackConfig)
        requires
            forall|i: int, j: int|
                0 <= i < j < aggressor_patterns@.len() ==> (#[trigger] aggressor_patterns@[i].0@)
                    != (#[trigger] aggressor_patterns@[j].0@),
        ensures
            c.hammer_count == hammer_count,
            c.segment_virt_addr == segment_virt_addr,
            c@.victim_frames == Seq::new(victim_frames@.len(), |i: int| victim_frames@[i]@),
            c@.aggressor_patterns == Seq::new(
                aggressor_patterns@.len(),
                |i: int| (aggressor_patterns@[i].0@, aggressor_patterns@[i].1@),
            ),
    {
        AttackConfig { hammer_count, segment_virt_addr, victim_frames, aggressor_patterns }
    }

    /// Every aggressor row of every pattern is well formed.
    pub open spec fn rows_wf(self) -> bool {
        forall|p: int, r: int|
            0 <= p < self@.aggressor_patterns.len() && 0 <= r
                < self@.aggressor_patterns[p].1.len() ==> (#[trigger] self@.aggressor_patterns[p].1[r]).frames.len() > 0
    }

    /// All rows used as aggressors, over all patterns, in pattern order.  The
    /// same row may appear several times when patterns share it.
    pub fn iter_aggr_rows(&self) -> (rows: Vec<&RowAndInitValue>)
        ensures
            rows@.len() == rows_of_patterns(self@.aggressor_patterns).len(),
            forall|i: int|
                0 <= i < rows@.len() ==> (#[trigger] rows@[i])@ == rows_of_patterns(
                    self@.aggressor_patterns,
                )[i],
    {
        let ghost ps = self@.aggressor_patterns;
        let mut rows: Vec<&RowAndInitValue> = Vec::new();
        let mut p: usize = 0;
        while p < self.aggressor_patterns.len()
            invariant
                ps == self@.aggressor_patterns,
                0 <= p <= ps.len(),
                rows@.len() == rows_of_patterns(ps.take(p as int)).len(),
                forall|i: int|
                    0 <= i < rows@.len() ==> (#[trigger] rows@[i])@ == rows_of_patterns(
                        ps.take(p as int),
                    )[i],
            decreases ps.len() - p,
        {
            let pat = &self.aggressor_patterns[p].1;
            let ghost flat_pre = rows_of_patterns(ps.take(p as int));
            let mut r: usize = 0;
            while r < pat.pattern.len()
                invariant
                    ps == self@.aggressor_patterns,
                    0 <= p < ps.len(),
                    pat@ == ps[p as int].1,
                    pat.pattern@.len() == ps[p as int].1.len(),
                    0 <= r <= pat.pattern@.len(),
                    flat_pre == rows_of_patterns(ps.take(p as int)),
                    rows@.len() == flat_pre.len() + r,
                    forall|i: int|
                        0 <= i < flat_pre.len() ==> (#[trigger] rows@[i])@ == flat_pre[i],
                    forall|k: int|
                        0 <= k < r ==> (#[trigger] rows@[flat_pre.len() + k])@ == ps[p as int].1[k],
                decreases pat.pattern@.len() - r,
            {
                rows.push(&pat.pattern[r]);
                proof {
                    assert(pat.pattern@[r as int]@ == pat@[r as int]);
                }
                r = r + 1;
            }
            proof {
                assert(ps.take(p as int + 1).drop_last() =~= ps.take(p as int));
                assert(ps.take(p as int + 1).last() == ps[p as int]);
                assert(rows_of_patterns(ps.take(p as int + 1)) == flat_pre + ps[p as int].1);
                assert forall|i: int| 0 <= i < rows@.len() implies (#[trigger] rows@[i])@
                    == rows_of_patterns(ps.take(p as int + 1))[i] by {
                    if i >= flat_pre.len() {
                        let k = i - flat_pre.len();
                        assert(rows@[flat_pre.len() + k]@ == ps[p as int].1[k]);
                    }
                }
            }
            p = p + 1;
        }
        proof {
            assert(ps.take(ps.len() as int) =~= ps);
        }
        rows
    }

    /// Every frame used as an aggressor: all frames of all rows of all
    /// patterns, in order.
    pub fn iter_aggr_frames(&self) -> (frames: Vec<u64>)
        ensures
            frames@ == aggr_frames_of(self@),
    {
        let rows = self.iter_aggr_rows();
        let ghost flat = rows_of_patterns(self@.aggressor_patterns);
        let mut frames: Vec<u64> = Vec::new();
        let mut i: usize = 0;
        while i < rows.len()
            invariant
                rows@.len() == flat.len(),
                forall|k: int| 0 <= k < flat.len() ==> (#[trigger] rows@[k])@ == flat[k],
                0 <= i <= flat.len(),
                frames@ == frames_of_rows(flat.take(i as int)),
            decreases flat.len() - i,
        {
            let row = rows[i];
            let mut k: usize = 0;
            let ghost frames_pre = frames@;
            while k < row.frames.len()
                invariant
                    row@ == flat[i as int],
                    0 <= k <= row.frames@.len(),
                    frames@ == frames_pre + row.frames@.take(k as int),
                decreases row.frames@.len() - k,
            {
                frames.push(row.frames[k]);
                proof {
                    assert(frames@ =~= frames_pre + row.frames@.take(k as int + 1));
                }
                k = k + 1;
            }
            proof {
                assert(flat.take(i as int + 1).drop_last() =~= flat.take(i as int));
                assert(flat.take(i as int + 1).last() == flat[i as int]);
                assert(row.frames@.take(row.frames@.len() as int) =~= row.frames@);
                assert(frames@ == frames_of_rows(flat.take(i as int + 1)));
            }
            i = i + 1;
        }
        proof {
            assert(flat.take(flat.len() as int) =~= flat);
        }
        frames
    }
}


// --- validation ---

/// Every aggressor row has at least one frame, as rows built from
/// `get_frames_in_row` do.
pub open spec fn rows_wf(c: AttackConfigSpec) -> bool {
    forall|i: int|
        0 <= i < rows_of_patterns(c.aggressor_patterns).len() ==> (#[trigger] rows_of_patterns(
            c.aggressor_patterns,
        )[i]).frames.len() > 0
}

/// No frame is used both inside a victim row and inside an aggressor row.
pub open spec fn no_overlap(c: AttackConfigSpec) -> bool {
    forall|f: u64|
        !(#[trigger] aggr_frames_of(c).contains(f) && victim_row_frames_of(c).contains(f))
}

/// Every victim frame names the binary page it carries.
pub open spec fn offsets_present(c: AttackConfigSpec) -> bool {
    forall|i: int|
        0 <= i < c.victim_frames.len() ==> (#[trigger] c.victim_frames[i].page_file_offset)
            is Some
}

/// The page-aligned file offset of a victim frame.
pub open spec fn masked_offset(vf: VictimFrameSpec) -> u64 {
    vf.page_file_offset.unwrap() & crate::config::PAGE_ALIGN_MASK
}

/// No two victim frames carry the same binary page.
pub open spec fn offsets_unique(c: AttackConfigSpec) -> bool {
    forall|i: int, j: int|
        0 <= i < j < c.victim_frames.len() ==> masked_offset(#[trigger] c.victim_frames[i])
            != masked_offset(#[trigger] c.victim_frames[j])
}

/// No two aggressor patterns are equal.
pub open spec fn patterns_distinct(c: AttackConfigSpec) -> bool {
    forall|i: int, j: int|
        0 <= i < j < c.aggressor_patterns.len() ==> (#[trigger] c.aggressor_patterns[i]).1 != (
        #[trigger] c.aggressor_patterns[j]).1
}

/// The leading frame and init value of every aggressor row, over all
/// patterns.
pub open spec fn row_keys(c: AttackConfigSpec) -> Seq<(u64, u8)> {
    Seq::new(
        rows_of_patterns(c.aggressor_patterns).len(),
        |i: int|
            (
                rows_of_patterns(c.aggressor_patterns)[i].frames[0],
                rows_of_patterns(c.aggressor_patterns)[i].init,
            ),
    )
}

/// A row appearing in several patterns always carries the same init value.
pub open spec fn inits_consistent(c: AttackConfigSpec) -> bool {
    forall|i: int, j: int|
        0 <= i < row_keys(c).len() && 0 <= j < row_keys(c).len() && (#[trigger] row_keys(c)[i]).0
            == (#[trigger] row_keys(c)[j]).0 ==> row_keys(c)[i].1 == row_keys(c)[j].1
}

/// All checks `validate` makes.
pub open spec fn attack_config_ok(c: AttackConfigSpec) -> bool {
    rows_wf(c) && no_overlap(c) && offsets_present(c) && offsets_unique(c) && patterns_distinct(c)
        && inits_consistent(c)
}

/// Why `validate` rejected a configuration.
#[derive(Debug)]
pub enum AttackConfigError {
    /// An aggressor pattern holds a row without frames.
    EmptyAggressorRow,
    /// Frames used both as victim rows and as aggressors.
    RowOverlap { frames: Vec<u64> },
    /// A victim frame has no binary page offset.
    MissingPageFileOffset,
    /// Two victim frames carry the same binary page.
    DuplicatePageFileOffset { offset: u64 },
    /// Two patterns are the same.
    DuplicateAggressorPattern,
    /// Rows used with different init values across patterns.
    ConflictingInitValues { rows: Vec<u64> },
}

/// Whether `v` holds `x`.
fn vec_contains_u64(v: &Vec<u64>, x: u64) -> (b: bool)
    ensures
        b == v@.contains(x),
{
    let mut i: usize = 0;
    while i < v.len()
        invariant
            0 <= i <= v@.len(),
            forall|k: int| 0 <= k < i ==> v@[k] != x,
        decreases v@.len() - i,
    {
        if v[i] == x {
            return true;
        }
        i = i + 1;
    }
    false
}

/// Whether two rows are the same row with the same init value.
fn rows_equal(x: &RowAndInitValue, y: &RowAndInitValue) -> (eq: bool)
    ensures
        eq == (x@ == y@),
{
    if x.init != y.init {
        return false;
    }
    if x.frames.len() != y.frames.len() {
        proof {
            assert(x@.frames.len() != y@.frames.len());
        }
        return false;
    }
    let mut m: usize = 0;
    while m < x.frames.len()
        invariant
            x@.frames.len() == y@.frames.len(),
            x.init == y.init,
            0 <= m <= x.frames@.len(),
            forall|k: int| 0 <= k < m ==> x.frames@[k] == y.frames@[k],
        decreases x.frames@.len() - m,
    {
        if x.frames[m] != y.frames[m] {
            proof {
                assert(x@.frames[m as int] != y@.frames[m as int]);
            }
            return false;
        }
        m = m + 1;
    }
    proof {
        assert(x@.frames =~= y@.frames);
    }
    true
}

/// Whether two patterns hold the same rows in the same order.
pub fn patterns_equal_pub(a: &AggressorPattern, b: &AggressorPattern) -> (eq: bool)
    ensures
        eq == (a@ == b@),
{
    if a.pattern.len() != b.pattern.len() {
        proof {
            assert(a@.len() != b@.len());
        }
        return false;
    }
    let mut k: usize = 0;
    while k < a.pattern.len()
        invariant
            a@.len() == b@.len(),
            a.pattern@.len() == a@.len(),
            b.pattern@.len() == b@.len(),
            0 <= k <= a@.len(),
            forall|i: int| 0 <= i < k ==> a@[i] == b@[i],
        decreases a@.len() - k,
    {
        if !rows_equal(&a.pattern[k], &b.pattern[k]) {
            proof {
                assert(a@[k as int] != b@[k as int]);
            }
            return false;
        }
        k = k + 1;
    }
    proof {
        assert(a@ =~= b@);
    }
    true
}

impl AttackConfig {
    /// All page frames of all rows holding a victim frame, in order.
    fn victim_row_frames(&self) -> (frames: Vec<u64>)
        ensures
            frames@ == victim_row_frames_of(self@),
    {
        let ghost vfs = self@.victim_frames;
        let mut frames: Vec<u64> = Vec::new();
        let mut i: usize = 0;
        while i < self.victim_frames.len()
            invariant
                vfs == self@.victim_frames,
                0 <= i <= vfs.len(),
                frames@ == victim_row_frames_seq(vfs.take(i as int)),
            decreases vfs.len() - i,
        {
            let row = crate::utils::get_frames_in_row(self.victim_frames[i].frame_addr);
            let ghost pre = frames@;
            let mut k: usize = 0;
            while k < row.len()
                invariant
                    row@ == crate::utils::frames_in_row_spec(vfs[i as int].frame_addr),
                    0 <= k <= row@.len(),
                    frames@ == pre + row@.take(k as int),
                decreases row@.len() - k,
            {
                frames.push(row[k]);
                proof {
                    assert(frames@ =~= pre + row@.take(k as int + 1));
                }
                k = k + 1;
            }
            proof {
                assert(vfs.take(i as int + 1).drop_last() =~= vfs.take(i as int));
                assert(vfs.take(i as int + 1).last() == vfs[i as int]);
                assert(row@.take(row@.len() as int) =~= row@);
                assert(frames@ == victim_row_frames_seq(vfs.take(i as int + 1)));
            }
            i = i + 1;
        }
        proof {
            assert(vfs.take(vfs.len() as int) =~= vfs);
        }
        frames
    }

    /// Checks the configuration: aggressor and victim rows must not overlap,
    /// every binary page may be placed only once, no two patterns may be the
    /// same, and a row shared by patterns must keep one init value.
    pub fn validate(self) -> (r: Result<AttackConfig, AttackConfigError>)
        ensures
            r is Ok <==> attack_config_ok(self@),
            r matches Ok(c) ==> c == self,
            r matches Err(e) ==> match e {
                AttackConfigError::EmptyAggressorRow => !rows_wf(self@),
                AttackConfigError::RowOverlap { frames } => {
                    &&& rows_wf(self@)
                    &&& !no_overlap(self@)
                    &&& frames@.no_duplicates()
                    &&& forall|f: u64|
                        #[trigger] frames@.contains(f) <==> (aggr_frames_of(self@).contains(f)
                            && victim_row_frames_of(self@).contains(f))
                },
                AttackConfigError::MissingPageFileOffset => {
                    &&& rows_wf(self@)
                    &&& no_overlap(self@)
                    &&& !offsets_present(self@)
                },
                AttackConfigError::DuplicatePageFileOffset { offset } => {
                    &&& rows_wf(self@)
                    &&& no_overlap(self@)
                    &&& !offsets_unique(self@)
                    &&& exists|i: int, j: int|
                        0 <= i < j < self@.victim_frames.len() && masked_offset(
                            #[trigger] self@.victim_frames[i],
                        ) == masked_offset(#[trigger] self@.victim_frames[j]) && offset
                            == masked_offset(self@.victim_frames[i])
                },
                AttackConfigError::DuplicateAggressorPattern => {
                    &&& rows_wf(self@)
                    &&& no_overlap(self@)
                    &&& offsets_present(self@)
                    &&& offsets_unique(self@)
                    &&& !patterns_distinct(self@)
                },
                AttackConfigError::ConflictingInitValues { rows } => {
                    &&& rows_wf(self@)
                    &&& no_overlap(self@)
                    &&& offsets_present(self@)
                    &&& offsets_unique(self@)
                    &&& patterns_distinct(self@)
                    &&& !inits_consistent(self@)
                    &&& rows@.len() > 0
                    &&& forall|x: u64|
                        #[trigger] rows@.contains(x) ==> exists|i: int, j: int|
                            #![trigger row_keys(self@)[i], row_keys(self@)[j]]
                            0 <= i < j < row_keys(self@).len() && row_keys(self@)[i].0 == x
                                && row_keys(self@)[j].0 == x && row_keys(self@)[i].1
                                != row_keys(self@)[j].1
                },
            },
    {
        let ghost cs = self@;

        // rows must be non-empty before their leading frame can mean anything
        let flat_rows = self.iter_aggr_rows();
        let ghost flat = rows_of_patterns(cs.aggressor_patterns);
        let mut i: usize = 0;
        while i < flat_rows.len()
            invariant
                cs == self@,
                flat_rows@.len() == flat.len(),
                flat == rows_of_patterns(cs.aggressor_patterns),
                forall|k: int| 0 <= k < flat.len() ==> (#[trigger] flat_rows@[k])@ == flat[k],
                0 <= i <= flat.len(),
                forall|k: int| 0 <= k < i ==> (#[trigger] flat[k]).frames.len() > 0,
            decreases flat.len() - i,
        {
            if flat_rows[i].frames.len() == 0 {
                proof {
                    assert(flat[i as int].frames.len() == 0);
                }
                return Err(AttackConfigError::EmptyAggressorRow);
            }
            i = i + 1;
        }
        proof {
            assert(rows_wf(cs));
        }

        // 1. aggressor rows and victim rows must not overlap
        let aggrs = self.iter_aggr_frames();
        let victims = self.victim_row_frames();
        let mut overlap: Vec<u64> = Vec::new();
        let mut i: usize = 0;
        while i < aggrs.len()
            invariant
                cs == self@,
                aggrs@ == aggr_frames_of(cs),
                victims@ == victim_row_frames_of(cs),
                0 <= i <= aggrs@.len(),
                overlap@.no_duplicates(),
                forall|x: u64|
                    #[trigger] overlap@.contains(x) <==> (aggrs@.take(i as int).contains(x)
                        && victims@.contains(x)),
            decreases aggrs@.len() - i,
        {
            let f = aggrs[i];
            let ghost pre = overlap@;
            if vec_contains_u64(&victims, f) && !vec_contains_u64(&overlap, f) {
                overlap.push(f);
                proof {
                    assert forall|x: u64| #[trigger] overlap@.contains(x) implies (aggrs@.take(
                        i as int + 1,
                    ).contains(x) && victims@.contains(x)) by {
                        if x == f {
                            assert(aggrs@.take(i as int + 1)[i as int] == f);
                        } else {
                            assert(pre.contains(x));
                            let k = choose|k: int|
                                0 <= k < i && #[trigger] aggrs@.take(i as int)[k] == x;
                            assert(aggrs@.take(i as int + 1)[k] == x);
                        }
                    }
                    assert forall|x: u64|
                        (aggrs@.take(i as int + 1).contains(x) && victims@.contains(
                            x,
                        )) implies #[trigger] overlap@.contains(x) by {
                        let k = choose|k: int|
                            0 <= k < i + 1 && #[trigger] aggrs@.take(i as int + 1)[k] == x;
                        if k < i {
                            assert(aggrs@.take(i as int)[k] == x);
                            assert(pre.contains(x));
                            let m = choose|m: int| 0 <= m < pre.len() && #[trigger] pre[m] == x;
                            assert(overlap@[m] == x);
                        } else {
                            assert(overlap@.last() == f);
                        }
                    }
                    assert forall|k1: int, k2: int|
                        0 <= k1 < k2 < overlap@.len() implies overlap@[k1] != overlap@[k2] by {
                        if k2 == overlap@.len() - 1 {
                            assert(pre[k1] == overlap@[k1]);
                            assert(pre.contains(overlap@[k1]));
                        }
                    }
                }
            } else {
                proof {
                    assert forall|x: u64| #[trigger] overlap@.contains(x) implies (aggrs@.take(
                        i as int + 1,
                    ).contains(x) && victims@.contains(x)) by {
                        let k = choose|k: int|
                            0 <= k < i && #[trigger] aggrs@.take(i as int)[k] == x;
                        assert(aggrs@.take(i as int + 1)[k] == x);
                    }
                    assert forall|x: u64|
                        (aggrs@.take(i as int + 1).contains(x) && victims@.contains(
                            x,
                        )) implies #[trigger] overlap@.contains(x) by {
                        let k = choose|k: int|
                            0 <= k < i + 1 && #[trigger] aggrs@.take(i as int + 1)[k] == x;
                        if k < i {
                            assert(aggrs@.take(i as int)[k] == x);
                        } else {
                            assert(x == f);
                            if victims@.contains(f) {
                                assert(overlap@.contains(f));
                            }
                        }
                    }
                }
            }
            i = i + 1;
        }
        proof {
            assert(aggrs@.take(aggrs@.len() as int) =~= aggrs@);
        }
        if overlap.len() > 0 {
            proof {
                assert(overlap@.contains(overlap@[0]));
                assert(!no_overlap(cs));
            }
            return Err(AttackConfigError::RowOverlap { frames: overlap });
        }
        proof {
            assert forall|f: u64|
                !(#[trigger] aggr_frames_of(cs).contains(f) && victim_row_frames_of(cs).contains(
                    f,
                )) by {
                if aggr_frames_of(cs).contains(f) && victim_row_frames_of(cs).contains(f) {
                    assert(overlap@.contains(f));
                }
            }
        }

        // 2. each binary page may be mapped to one victim frame only
        let mut masked: Vec<u64> = Vec::new();
        let mut j: usize = 0;
        while j < self.victim_frames.len()
            invariant
                cs == self@,
                no_overlap(cs),
                rows_wf(cs),
                0 <= j <= cs.victim_frames.len(),
                masked@.len() == j,
                forall|k: int|
                    0 <= k < j ==> (#[trigger] cs.victim_frames[k].page_file_offset) is Some,
                forall|k: int| 0 <= k < j ==> masked@[k] == masked_offset(#[trigger] cs.victim_frames[k]),
                forall|k1: int, k2: int| 0 <= k1 < k2 < j ==> masked@[k1] != masked@[k2],
            decreases cs.victim_frames.len() - j,
        {
            match self.victim_frames[j].page_file_offset {
                None => {
                    proof {
                        assert(cs.victim_frames[j as int].page_file_offset is None);
                        assert(!offsets_present(cs));
                    }
                    return Err(AttackConfigError::MissingPageFileOffset);
                },
                Some(o) => {
                    let m = o & crate::config::PAGE_ALIGN_MASK;
                    if vec_contains_u64(&masked, m) {
                        proof {
                            let k = choose|k: int| 0 <= k < j && #[trigger] masked@[k] == m;
                            assert(masked_offset(cs.victim_frames[k]) == masked_offset(
                                cs.victim_frames[j as int],
                            ));
                            assert(!offsets_unique(cs));
                        }
                        return Err(AttackConfigError::DuplicatePageFileOffset { offset: m });
                    }
                    masked.push(m);
                },
            }
            j = j + 1;
        }

        proof {
            assert forall|i1: int, j1: int|
                0 <= i1 < j1 < cs.victim_frames.len() implies masked_offset(
                #[trigger] cs.victim_frames[i1],
            ) != masked_offset(#[trigger] cs.victim_frames[j1]) by {
                assert(masked@[i1] == masked_offset(cs.victim_frames[i1]));
                assert(masked@[j1] == masked_offset(cs.victim_frames[j1]));
            }
            assert(offsets_unique(cs));
            assert(offsets_present(cs));
        }

        // 3. no two patterns may be the same
        let mut a: usize = 0;
        while a < self.aggressor_patterns.len()
            invariant
                cs == self@,
                no_overlap(cs),
                rows_wf(cs),
                offsets_present(cs),
                offsets_unique(cs),
                0 <= a <= cs.aggressor_patterns.len(),
                forall|i1: int, i2: int|
                    0 <= i1 < i2 < cs.aggressor_patterns.len() && i1 < a ==> (
                    #[trigger] cs.aggressor_patterns[i1]).1 != (
                    #[trigger] cs.aggressor_patterns[i2]).1,
            decreases cs.aggressor_patterns.len() - a,
        {
            let mut b: usize = a + 1;
            while b < self.aggressor_patterns.len()
                invariant
                    cs == self@,
                    no_overlap(cs),
                    rows_wf(cs),
                    offsets_present(cs),
                    offsets_unique(cs),
                    0 <= a < cs.aggressor_patterns.len(),
                    a < b <= cs.aggressor_patterns.len(),
                    forall|i2: int| a < i2 < b ==> (#[trigger] cs.aggressor_patterns[i2]).1 != cs.aggressor_patterns[a as int].1,
                decreases cs.aggressor_patterns.len() - b,
            {
                if patterns_equal_pub(&self.aggressor_patterns[a].1, &self.aggressor_patterns[b].1) {
                    proof {
                        assert(cs.aggressor_patterns[a as int].1 == cs.aggressor_patterns[b as int].1);
                        assert(!patterns_distinct(cs));
                    }
                    return Err(AttackConfigError::DuplicateAggressorPattern);
                }
                proof {
                    assert(cs.aggressor_patterns[b as int].1 != cs.aggressor_patterns[a as int].1);
                }
                b = b + 1;
            }
            a = a + 1;
        }

        // 4. one init value per row, over all patterns
        let ghost keys = row_keys(cs);
        let mut key_vec: Vec<(u64, u8)> = Vec::new();
        let mut i: usize = 0;
        while i < flat_rows.len()
            invariant
                cs == self@,
                no_overlap(cs),
                rows_wf(cs),
                offsets_present(cs),
                offsets_unique(cs),
                patterns_distinct(cs),
                flat_rows@.len() == flat.len(),
                flat == rows_of_patterns(cs.aggressor_patterns),
                keys == row_keys(cs),
                forall|k: int| 0 <= k < flat.len() ==> (#[trigger] flat_rows@[k])@ == flat[k],
                0 <= i <= flat.len(),
                key_vec@.len() == i,
                forall|k: int| 0 <= k < i ==> key_vec@[k] == keys[k],
            decreases flat.len() - i,
        {
            let row = flat_rows[i];
            proof {
                assert(flat[i as int].frames.len() > 0);
            }
            key_vec.push((row.frames[0], row.init));
            i = i + 1;
        }

        let mut conflicts: Vec<u64> = Vec::new();
        let mut j: usize = 0;
        while j < key_vec.len()
            invariant
                cs == self@,
                keys == row_keys(cs),
                key_vec@.len() == keys.len(),
                forall|k: int| 0 <= k < keys.len() ==> key_vec@[k] == keys[k],
                0 <= j <= keys.len(),
                conflicts@.no_duplicates(),
                forall|x: u64|
                    #[trigger] conflicts@.contains(x) ==> exists|i1: int, j1: int|
                        #![trigger keys[i1], keys[j1]]
                        0 <= i1 < j1 < keys.len() && keys[i1].0 == x && keys[j1].0 == x
                            && keys[i1].1 != keys[j1].1,
                conflicts@.len() == 0 ==> forall|i1: int, j1: int|
                    0 <= i1 < j1 < j && (#[trigger] keys[i1]).0 == (#[trigger] keys[j1]).0
                        ==> keys[i1].1 == keys[j1].1,
            decreases keys.len() - j,
        {
            let mut i: usize = 0;
            while i < j
                invariant
                    cs == self@,
                    keys == row_keys(cs),
                    key_vec@.len() == keys.len(),
                    forall|k: int| 0 <= k < keys.len() ==> key_vec@[k] == keys[k],
                    0 <= i <= j < keys.len(),
                    conflicts@.no_duplicates(),
                    forall|x: u64|
                        #[trigger] conflicts@.contains(x) ==> exists|i1: int, j1: int|
                            #![trigger keys[i1], keys[j1]]
                            0 <= i1 < j1 < keys.len() && keys[i1].0 == x && keys[j1].0 == x
                                && keys[i1].1 != keys[j1].1,
                    conflicts@.len() == 0 ==> (forall|i1: int, j1: int|
                        0 <= i1 < j1 < j && (#[trigger] keys[i1]).0 == (#[trigger] keys[j1]).0
                            ==> keys[i1].1 == keys[j1].1) && (forall|i1: int|
                        0 <= i1 < i && (#[trigger] keys[i1]).0 == keys[j as int].0 ==> keys[i1].1
                            == keys[j as int].1),
                decreases j - i,
            {
                let ki = key_vec[i];
                let kj = key_vec[j];
                if ki.0 == kj.0 && ki.1 != kj.1 {
                    if !vec_contains_u64(&conflicts, kj.0) {
                        let ghost pre = conflicts@;
                        conflicts.push(kj.0);
                        proof {
                            assert(keys[i as int].0 == kj.0 && keys[j as int].0 == kj.0
                                && keys[i as int].1 != keys[j as int].1);
                            assert forall|x: u64| #[trigger] conflicts@.contains(x) implies exists|
                                i1: int,
                                j1: int,
                            |
                                #![trigger keys[i1], keys[j1]]
                                0 <= i1 < j1 < keys.len() && keys[i1].0 == x && keys[j1].0 == x
                                    && keys[i1].1 != keys[j1].1 by {
                                if x == kj.0 {
                                } else {
                                    let m = choose|m: int| 0 <= m < pre.len() && #[trigger] pre[m] == x;
                                    assert(pre.contains(x));
                                }
                            }
                            assert forall|k1: int, k2: int|
                                0 <= k1 < k2 < conflicts@.len() implies conflicts@[k1]
                                != conflicts@[k2] by {
                                if k2 == conflicts@.len() - 1 {
                                    assert(pre[k1] == conflicts@[k1]);
                                    assert(pre.contains(conflicts@[k1]));
                                }
                            }
                        }
                    }
                }
                i = i + 1;
            }
            proof {
                if conflicts@.len() == 0 {
                    assert forall|i1: int, j1: int|
                        0 <= i1 < j1 < j + 1 && (#[trigger] keys[i1]).0 == (#[trigger] keys[j1]).0
                            implies keys[i1].1 == keys[j1].1 by {}
                }
            }
            j = j + 1;
        }
        if conflicts.len() > 0 {
            proof {
                assert(conflicts@.contains(conflicts@[0]));
                let (i1, j1) = choose|i1: int, j1: int|
                    #![trigger keys[i1], keys[j1]]
                    0 <= i1 < j1 < keys.len() && keys[i1].0 == conflicts@[0]
                        && keys[j1].0 == conflicts@[0] && keys[i1].1 != keys[j1].1;
                assert(!inits_consistent(cs));
            }
            return Err(AttackConfigError::ConflictingInitValues { rows: conflicts });
        }
        proof {
            assert forall|i1: int, j1: int|
                0 <= i1 < keys.len() && 0 <= j1 < keys.len() && (#[trigger] keys[i1]).0 == (
                #[trigger] keys[j1]).0 implies keys[i1].1 == keys[j1].1 by {
                if i1 < j1 {
                } else if j1 < i1 {
                    assert(keys[j1].0 == keys[i1].0);
                }
            }
            assert(inits_consistent(cs));
        }
        Ok(self)
    }
}


/// A deep copy of a pattern, row by row.
pub fn duplicate_pattern(p: &AggressorPattern) -> (q: AggressorPattern)
    ensures
        q@ == p@,
{
    let mut rows: Vec<RowAndInitValue> = Vec::new();
    let mut i: usize = 0;
    while i < p.pattern.len()
        invariant
            0 <= i <= p.pattern@.len(),
            rows@.len() == i,
            Seq::new(rows@.len(), |k: int| rows@[k]@) =~= p@.take(i as int),
        decreases p.pattern@.len() - i,
    {
        let src_row = &p.pattern[i];
        let mut frames: Vec<u64> = Vec::new();
        let mut k: usize = 0;
        while k < src_row.frames.len()
            invariant
                0 <= k <= src_row.frames@.len(),
                frames@ =~= src_row.frames@.take(k as int),
            decreases src_row.frames@.len() - k,
        {
            frames.push(src_row.frames[k]);
            k = k + 1;
        }
        proof {
            assert(frames@ =~= src_row.frames@);
        }
        rows.push(RowAndInitValue { frames, init: src_row.init });
        proof {
            assert(rows@.len() == i + 1);
            assert(rows@[i as int]@ == RowSpec { frames: src_row.frames@, init: src_row.init });
            assert(p@[i as int] == p.pattern@[i as int]@);
            assert(rows@[i as int]@ == p@[i as int]);
            assert(Seq::new(rows@.len(), |k0: int| rows@[k0]@) =~= p@.take(i as int + 1));
        }
        i = i + 1;
    }
    let q = AggressorPattern { pattern: rows };
    proof {
        assert(q@ =~= p@);
    }
    q
}

// --- pattern lookup and virtual addresses ---

/// All victim bits of all victim frames, in frame order.
pub open spec fn bits_of_frames(vfs: Seq<VictimFrameSpec>) -> Seq<VictimBitSpec>
    decreases vfs.len(),
{
    if vfs.len() == 0 {
        Seq::empty()
    } else {
        bits_of_frames(vfs.drop_last()) + vfs.last().victim_bits
    }
}

proof fn lemma_bits_of_frames_concat(a: Seq<VictimFrameSpec>, b: Seq<VictimFrameSpec>)
    ensures
        bits_of_frames(a + b) == bits_of_frames(a) + bits_of_frames(b),
    decreases b.len(),
{
    if b.len() == 0 {
        assert(a + b =~= a);
        assert(bits_of_frames(a) + Seq::<VictimBitSpec>::empty() =~= bits_of_frames(a));
    } else {
        lemma_bits_of_frames_concat(a, b.drop_last());
        assert((a + b).drop_last() =~= a + b.drop_last());
        assert((a + b).last() == b.last());
        assert(bits_of_frames(a) + bits_of_frames(b.drop_last()) + b.last().victim_bits
            =~= bits_of_frames(a) + (bits_of_frames(b.drop_last()) + b.last().victim_bits));
    }
}

/// Index of the first pattern with key `key`, scanning from `i`; the length
/// when no pattern matches.
pub open spec fn find_key_from(
    ps: Seq<(Seq<char>, Seq<RowSpec>)>,
    key: Seq<char>,
    i: nat,
) -> nat
    decreases ps.len() - i,
{
    if i >= ps.len() {
        ps.len()
    } else if ps[i as int].0 == key {
        i
    } else {
        find_key_from(ps, key, i + 1)
    }
}

/// Index of the first pattern with key `key`; the length when none matches.
pub open spec fn find_key(ps: Seq<(Seq<char>, Seq<RowSpec>)>, key: Seq<char>) -> nat {
    find_key_from(ps, key, 0)
}

/// Every victim bit names a pattern that exists.
pub open spec fn keys_resolvable(c: AttackConfigSpec) -> bool {
    forall|b: int|
        0 <= b < bits_of_frames(c.victim_frames).len() ==> find_key(
            c.aggressor_patterns,
            (#[trigger] bits_of_frames(c.victim_frames)[b]).aggr_pattern_key,
        ) < c.aggressor_patterns.len()
}

impl AttackConfig {
    /// Index of the first pattern stored under `key`; the number of patterns
    /// when none is.
    fn find_pattern(&self, key: &String) -> (idx: usize)
        ensures
            idx == find_key(self@.aggressor_patterns, key@),
    {
        let ghost ps = self@.aggressor_patterns;
        let mut i: usize = 0;
        while i < self.aggressor_patterns.len()
            invariant
                ps == self@.aggressor_patterns,
                0 <= i <= ps.len(),
                find_key(ps, key@) == find_key_from(ps, key@, i as nat),
            decreases ps.len() - i,
        {
            if self.aggressor_patterns[i].0 == *key {
                return i;
            }
            i = i + 1;
        }
        i
    }

    /// The aggressor pattern of each declared victim bit, over all victim
    /// frames, in order.  A pattern repeats when several bits name it.
    pub fn iter_aggr_patterns_per_victim(&self) -> (pats: Vec<&AggressorPattern>)
        requires
            keys_resolvable(self@),
        ensures
            pats@.len() == bits_of_frames(self@.victim_frames).len(),
            forall|i: int|
                0 <= i < pats@.len() ==> (#[trigger] pats@[i])@ == self@.aggressor_patterns[find_key(
                    self@.aggressor_patterns,
                    bits_of_frames(self@.victim_frames)[i].aggr_pattern_key,
                ) as int].1,
    {
        let ghost cs = self@;
        let ghost bits = bits_of_frames(cs.victim_frames);
        let mut pats: Vec<&AggressorPattern> = Vec::new();
        let mut v: usize = 0;
        while v < self.victim_frames.len()
            invariant
                cs == self@,
                keys_resolvable(cs),
                bits == bits_of_frames(cs.victim_frames),
                0 <= v <= cs.victim_frames.len(),
                pats@.len() == bits_of_frames(cs.victim_frames.take(v as int)).len(),
                bits_of_frames(cs.victim_frames.take(v as int)).len() <= bits.len(),
                forall|k: int|
                    0 <= k < pats@.len() ==> bits_of_frames(cs.victim_frames.take(v as int))[k]
                        == bits[k],
                forall|i: int|
                    0 <= i < pats@.len() ==> (#[trigger] pats@[i])@ == cs.aggressor_patterns[find_key(
                        cs.aggressor_patterns,
                        bits[i].aggr_pattern_key,
                    ) as int].1,
            decreases cs.victim_frames.len() - v,
        {
            let vf = &self.victim_frames[v];
            let ghost pre_len = pats@.len() as int;
            let ghost pre_bits = bits_of_frames(cs.victim_frames.take(v as int));
            proof {
                let vfs = cs.victim_frames;
                assert(vfs.take(v as int + 1).drop_last() =~= vfs.take(v as int));
                assert(vfs.take(v as int + 1).last() == vfs[v as int]);
                assert(bits_of_frames(vfs.take(v as int + 1)) == pre_bits
                    + vfs[v as int].victim_bits);
                assert(vfs =~= vfs.take(v as int + 1) + vfs.skip(v as int + 1));
                lemma_bits_of_frames_concat(vfs.take(v as int + 1), vfs.skip(v as int + 1));
                assert(bits == (pre_bits + vfs[v as int].victim_bits) + bits_of_frames(
                    vfs.skip(v as int + 1),
                ));
                assert(vf@ == vfs[v as int]);
                assert(vf.victim_bits@.len() == vfs[v as int].victim_bits.len());
                assert forall|k: int|
                    0 <= k < vfs[v as int].victim_bits.len() implies #[trigger] bits[pre_len + k]
                    == vfs[v as int].victim_bits[k] by {
                    assert(bits[pre_len + k] == ((pre_bits + vfs[v as int].victim_bits)
                        + bits_of_frames(vfs.skip(v as int + 1)))[pre_len + k]);
                }
            }
            let mut b: usize = 0;
            while b < vf.victim_bits.len()
                invariant
                    cs == self@,
                    keys_resolvable(cs),
                    bits == bits_of_frames(cs.victim_frames),
                    0 <= v < cs.victim_frames.len(),
                    vf@ == cs.victim_frames[v as int],
                    vf.victim_bits@.len() == cs.victim_frames[v as int].victim_bits.len(),
                    0 <= b <= vf.victim_bits@.len(),
                    pre_bits == bits_of_frames(cs.victim_frames.take(v as int)),
                    pre_len == pre_bits.len(),
                    pats@.len() == pre_len + b,
                    pre_len + vf.victim_bits@.len() <= bits.len(),
                    forall|k: int|
                        0 <= k < cs.victim_frames[v as int].victim_bits.len() ==> #[trigger] bits[pre_len + k]
                            == cs.victim_frames[v as int].victim_bits[k],
                    forall|i: int|
                        0 <= i < pats@.len() ==> (#[trigger] pats@[i])@ == cs.aggressor_patterns[find_key(
                            cs.aggressor_patterns,
                            bits[i].aggr_pattern_key,
                        ) as int].1,
                decreases vf.victim_bits@.len() - b,
            {
                proof {
                    assert(vf.victim_bits@[b as int]@ == cs.victim_frames[v as int].victim_bits[b as int]);
                    assert(bits[pre_len + b] == cs.victim_frames[v as int].victim_bits[b as int]);
                }
                let idx = self.find_pattern(&vf.victim_bits[b].aggr_pattern_key);
                proof {
                    assert(bits[pre_len + b].aggr_pattern_key == vf.victim_bits@[b as int].aggr_pattern_key@);
                    assert(find_key(cs.aggressor_patterns, bits[pre_len + b].aggr_pattern_key)
                        < cs.aggressor_patterns.len());
                }
                pats.push(&self.aggressor_patterns[idx].1);
                b = b + 1;
            }
            proof {
                assert(cs.victim_frames.take(v as int + 1).drop_last() =~= cs.victim_frames.take(
                    v as int,
                ));
                assert(cs.victim_frames.take(v as int + 1).last() == cs.victim_frames[v as int]);
                assert(bits_of_frames(cs.victim_frames.take(v as int + 1)) == pre_bits
                    + cs.victim_frames[v as int].victim_bits);
                assert forall|k: int|
                    0 <= k < pats@.len() implies bits_of_frames(
                    cs.victim_frames.take(v as int + 1),
                )[k] == bits[k] by {
                    if k < pre_len {
                    } else {
                        assert(bits[pre_len + (k - pre_len)] == cs.victim_frames[v as int].victim_bits[k
                            - pre_len]);
                    }
                }
            }
            v = v + 1;
        }
        proof {
            assert(cs.victim_frames.take(cs.victim_frames.len() as int) =~= cs.victim_frames);
        }
        pats
    }
}

impl AggressorPattern {
    /// The virtual address of each row of the pattern: the alias of the
    /// row's first frame, looked up in the held-frame table.
    pub fn aggr_rows_to_virt(&self, frame2map: &crate::config::Frame2Map) -> (virts: Vec<u64>)
        requires
            vstd::std_specs::hash::obeys_key_model::<u64>(),
            self.rows_wf(),
            forall|i: int|
                0 <= i < self@.len() ==> frame2map@.contains_key(
                    (#[trigger] self@[i]).frames[0],
                ),
        ensures
            virts@.len() == self@.len(),
            forall|i: int|
                0 <= i < self@.len() ==> virts@[i] == frame2map@[(#[trigger] self@[i]).frames[0]],
    {
        let mut virts: Vec<u64> = Vec::new();
        let mut i: usize = 0;
        while i < self.pattern.len()
            invariant
                vstd::std_specs::hash::obeys_key_model::<u64>(),
                self.rows_wf(),
                forall|k: int|
                    0 <= k < self@.len() ==> frame2map@.contains_key(
                        (#[trigger] self@[k]).frames[0],
                    ),
                self.pattern@.len() == self@.len(),
                0 <= i <= self@.len(),
                virts@.len() == i,
                forall|k: int|
                    0 <= k < i ==> virts@[k] == frame2map@[(#[trigger] self@[k]).frames[0]],
            decreases self@.len() - i,
        {
            proof {
                assert(self.pattern@[i as int]@ == self@[i as int]);
                assert(self.pattern@[i as int].wf());
            }
            let frame = self.pattern[i].frames[0];
            let virt = frame2map.get(&frame).unwrap();
            virts.push(*virt);
            i = i + 1;
        }
        virts
    }
}

// --- DRAM info and host records ---

/// Ghost image of `MappingFunctions`.
pub ghost struct MappingFunctionsSpec {
    pub row_fn: u64,
    pub column_fn: u64,
    pub bank_fns: Seq<u64>,
}

/// The address mapping functions of one DIMM family.
#[derive(Debug)]
pub struct MappingFunctions {
    pub row_fn: u64,
    pub column_fn: u64,
    pub bank_fns: Vec<u64>,
}

impl View for MappingFunctions {
    type V = MappingFunctionsSpec;

    open spec fn view(&self) -> MappingFunctionsSpec {
        MappingFunctionsSpec {
            row_fn: self.row_fn,
            column_fn: self.column_fn,
            bank_fns: self.bank_fns@,
        }
    }
}

/// Ghost image of a `DRAMInfo`.
pub ghost struct DRAMInfoSpec {
    pub dram_ids: Seq<(Seq<char>, Seq<char>)>,
    pub mapping_functions: Seq<(Seq<char>, MappingFunctionsSpec)>,
}

/// The DIMM knowledge base: serial numbers mapped to friendly identifiers,
/// and DIMM-family keys mapped to their mapping functions.
#[derive(Debug)]
pub struct DRAMInfo {
    pub dram_ids: Vec<(String, String)>,
    pub mapping_functions: Vec<(String, MappingFunctions)>,
}

impl View for DRAMInfo {
    type V = DRAMInfoSpec;

    open spec fn view(&self) -> DRAMInfoSpec {
        DRAMInfoSpec {
            dram_ids: Seq::new(
                self.dram_ids@.len(),
                |i: int| (self.dram_ids@[i].0@, self.dram_ids@[i].1@),
            ),
            mapping_functions: Seq::new(
                self.mapping_functions@.len(),
                |i: int| (self.mapping_functions@[i].0@, self.mapping_functions@[i].1@),
            ),
        }
    }
}

/// The host identity embedded verbatim in a template.
#[derive(Debug)]
pub struct HostConfig {
    pub hostname: String,
    pub motherboard_id: String,
    pub cpu_model: String,
    pub smt_disabled: bool,
    pub turbo_disabled: bool,
    /// Per CPU id: whether it is isolated, its scaling governor and its
    /// frequency limits, as one readable line.
    pub cpu_ids: Vec<(u32, String)>,
    pub git_hash: String,
    pub ram_swap_id: u32,
    pub os_release: String,
    pub kernel: String,
}

// --- textual forms ---

/// The text of one aggressor row: its row frame and init value, both in
/// `0x` hex.
pub open spec fn row_text(r: RowSpec) -> Seq<char> {
    seq!['0', 'x'] + crate::text::hex_seq(r.frames[0]) + seq!['(', '0', 'x'] + crate::text::hex_seq(
        r.init as u64,
    ) + seq![')']
}

/// The text of a whole pattern: its row tokens, comma-separated.
pub open spec fn pattern_text(rows: Seq<RowSpec>) -> Seq<char>
    decreases rows.len(),
{
    if rows.len() == 0 {
        Seq::empty()
    } else if rows.len() == 1 {
        row_text(rows[0])
    } else {
        pattern_text(rows.drop_last()) + seq![','] + row_text(rows.last())
    }
}

impl AggressorPattern {
    /// Writes the pattern in its on-disk text form: comma-separated
    /// `0x<row_frame>(0x<init>)` tokens.
    pub fn to_text(&self) -> (s: String)
        requires
            self.rows_wf(),
        ensures
            s@ == pattern_text(self@),
    {
        let mut s = String::new();
        proof {
            reveal_strlit("0x");
            reveal_strlit("(0x");
            reveal_strlit(")");
            reveal_strlit(",");
        }
        let mut i: usize = 0;
        while i < self.pattern.len()
            invariant
                self.rows_wf(),
                "0x"@ == seq!['0', 'x'],
                "(0x"@ == seq!['(', '0', 'x'],
                ")"@ == seq![')'],
                ","@ == seq![','],
                0 <= i <= self.pattern@.len(),
                s@ == pattern_text(self@.take(i as int)),
            decreases self.pattern@.len() - i,
        {
            if i > 0 {
                s.append(",");
            }
            s.append("0x");
            proof {
                assert(self.pattern@[i as int].wf());
            }
            let frame_text = crate::text::u64_to_hex(self.pattern[i].frames[0]);
            s.append(frame_text.as_str());
            s.append("(0x");
            let init_text = crate::text::u64_to_hex(self.pattern[i].init as u64);
            s.append(init_text.as_str());
            s.append(")");
            proof {
                assert(self@.take(i as int + 1).drop_last() =~= self@.take(i as int));
                assert(self@.take(i as int + 1).last() == self@[i as int]);
                if i == 0 {
                    assert(s@ =~= row_text(self@[0]));
                    assert(s@ =~= pattern_text(self@.take(1)));
                } else {
                    assert(s@ =~= pattern_text(self@.take(i as int)) + seq![','] + row_text(
                        self@[i as int],
                    ));
                }
            }
            i = i + 1;
        }
        proof {
            assert(self@.take(self@.len() as int) =~= self@);
        }
        s
    }
}

/// The text of one template victim: physical address in hex, the flip, and
/// the pattern index, space-separated.
pub open spec fn victim_text(phys_addr: u64, flip: BitFlip, aggr_idx: usize) -> Seq<char> {
    seq!['0', 'x'] + crate::text::hex_seq(phys_addr) + seq![' '] + bitflip_text(flip) + seq![' ']
        + crate::text::dec_seq(aggr_idx as u64)
}

/// Writes one template victim in its on-disk text form:
/// `0x<hex_phys> <idx><+|-> <aggr_pattern_idx>`.
pub fn victim_to_text(phys_addr: u64, flip: &BitFlip, aggr_idx: usize) -> (s: String)
    requires
        flip.flip_index < 8,
    ensures
        s@ == victim_text(phys_addr, *flip, aggr_idx),
{
    proof {
        reveal_strlit("0x");
        reveal_strlit(" ");
    }
    let mut s = String::new();
    s.append("0x");
    let addr_text = crate::text::u64_to_hex(phys_addr);
    s.append(addr_text.as_str());
    s.append(" ");
    let flip_text = flip.to_text();
    s.append(flip_text.as_str());
    s.append(" ");
    let idx_text = crate::text::u64_to_dec(aggr_idx as u64);
    s.append(idx_text.as_str());
    proof {
        assert(s@ =~= victim_text(phys_addr, *flip, aggr_idx));
    }
    s
}

/// The row a `0x<frame>(0x<init>)` token denotes: its leading frame address
/// and init value, or nothing when the token is malformed.
pub open spec fn parse_row_token(t: Seq<char>) -> Option<(u64, u64)> {
    let k = crate::text::find_char_from(t, '(', 0);
    if k >= t.len() {
        None
    } else if !(k + 4 <= t.len() && t.last() == ')') {
        None
    } else if !(k >= 3 && t[0] == '0' && t[1] == 'x') {
        None
    } else if !(t[k as int + 1] == '0' && t[k as int + 2] == 'x') {
        None
    } else {
        let h1 = t.subrange(2, k as int);
        let h2 = t.subrange(k as int + 3, t.len() - 1);
        if !(crate::text::all_digits(h1, 16) && crate::text::digits_value_int(h1, 16)
            <= u64::MAX) {
            None
        } else if !(h2.len() >= 1 && crate::text::all_digits(h2, 16)
            && crate::text::digits_value_int(h2, 16) <= 255) {
            None
        } else {
            Some(
                (
                    crate::text::digits_value_int(h1, 16) as u64,
                    crate::text::digits_value_int(h2, 16) as u64,
                ),
            )
        }
    }
}

/// The rows a comma-separated token list denotes, or nothing when any token
/// is malformed.
pub open spec fn parse_pattern_tokens(s: Seq<char>) -> Option<Seq<(u64, u64)>>
    decreases s.len(),
{
    let k = crate::text::find_char_from(s, ',', 0);
    if k >= s.len() {
        match parse_row_token(s) {
            Some(v) => Some(seq![v]),
            None => None,
        }
    } else {
        match parse_row_token(s.take(k as int)) {
            Some(v) => match parse_pattern_tokens(s.skip(k as int + 1)) {
                Some(rest) => Some(seq![v] + rest),
                None => None,
            },
            None => None,
        }
    }
}

/// Index of the first `c` between `from` and `to`; `to` when none occurs.
fn find_char_idx(chars: &Vec<char>, from: usize, to: usize, c: char) -> (r: usize)
    requires
        from <= to <= chars@.len(),
    ensures
        from <= r <= to,
        r - from == crate::text::find_char_from(chars@.subrange(from as int, to as int), c, 0),
{
    let ghost t = chars@.subrange(from as int, to as int);
    let mut k: usize = from;
    while k < to
        invariant
            from <= to <= chars@.len(),
            t == chars@.subrange(from as int, to as int),
            from <= k <= to,
            crate::text::find_char_from(t, c, 0) == crate::text::find_char_from(
                t,
                c,
                (k - from) as nat,
            ),
        decreases to - k,
    {
        proof {
            assert(t[k - from] == chars@[k as int]);
        }
        if chars[k] == c {
            return k;
        }
        k = k + 1;
    }
    k
}

/// Parses one row token between `from` and `to`.
fn parse_row_token_range(chars: &Vec<char>, from: usize, to: usize) -> (r: Option<(u64, u64)>)
    requires
        from <= to <= chars@.len(),
    ensures
        r == parse_row_token(chars@.subrange(from as int, to as int)),
{
    let ghost t = chars@.subrange(from as int, to as int);
    let k = find_char_idx(chars, from, to, '(');
    if k == to {
        return None;
    }
    proof {
        assert(t[k - from] == chars@[k as int]);
    }
    if !(to - k >= 4 && chars[to - 1] == ')') {
        proof {
            if to - from >= 1 {
                assert(t.last() == chars@[to - 1]);
            }
        }
        return None;
    }
    proof {
        assert(t.last() == chars@[to - 1]);
    }
    if !(k >= from + 3 && chars[from] == '0' && chars[from + 1] == 'x') {
        proof {
            assert(t[0] == chars@[from as int]);
            assert(t[1] == chars@[from as int + 1]);
        }
        return None;
    }
    proof {
        assert(t[0] == chars@[from as int]);
        assert(t[1] == chars@[from as int + 1]);
    }
    if !(chars[k + 1] == '0' && chars[k + 2] == 'x') {
        proof {
            assert(t[(k - from) as int + 1] == chars@[k as int + 1]);
            assert(t[(k - from) as int + 2] == chars@[k as int + 2]);
        }
        return None;
    }
    proof {
        assert(t[(k - from) as int + 1] == chars@[k as int + 1]);
        assert(t[(k - from) as int + 2] == chars@[k as int + 2]);
        assert(t.subrange(2, (k - from) as int) =~= chars@.subrange(from as int + 2, k as int));
        assert(t.subrange((k - from) as int + 3, t.len() - 1) =~= chars@.subrange(
            k as int + 3,
            to as int - 1,
        ));
    }
    let frame = match crate::text::parse_digits_range(chars, from + 2, k, 16) {
        Some(v) => v,
        None => {
            return None;
        },
    };
    let init = match crate::text::parse_digits_range(chars, k + 3, to - 1, 16) {
        Some(v) => v,
        None => {
            return None;
        },
    };
    if init > 255 {
        return None;
    }
    Some((frame, init))
}

impl AggressorPattern {
    /// Parses the on-disk text form of a pattern: comma-separated
    /// `0x<row_frame>(0x<init>)` tokens, each row expanded to every frame of
    /// its row.
    pub fn parse_text(s: &str) -> (r: Option<AggressorPattern>)
        ensures
            r is Some <==> parse_pattern_tokens(s@) is Some,
            r matches Some(p) ==> ({
                let toks = parse_pattern_tokens(s@).unwrap();
                p@ == Seq::new(
                    toks.len(),
                    |i: int|
                        RowSpec {
                            frames: crate::utils::frames_in_row_spec(toks[i].0),
                            init: toks[i].1 as u8,
                        },
                )
            }),
    {
        let chars = crate::text::to_char_vec(s);
        let mut rows: Vec<RowAndInitValue> = Vec::new();
        let ghost mut done: Seq<(u64, u64)> = Seq::empty();
        let mut from: usize = 0;
        proof {
            assert(s@.skip(0) =~= s@);
            if parse_pattern_tokens(s@) is Some {
                assert(Seq::<(u64, u64)>::empty() + parse_pattern_tokens(s@).unwrap()
                    =~= parse_pattern_tokens(s@).unwrap());
            }
        }
        loop
            invariant
                chars@ == s@,
                0 <= from <= chars@.len(),
                rows@.len() == done.len(),
                forall|i: int|
                    0 <= i < done.len() ==> (#[trigger] rows@[i])@ == (RowSpec {
                        frames: crate::utils::frames_in_row_spec(done[i].0),
                        init: done[i].1 as u8,
                    }),
                (parse_pattern_tokens(s@) is Some <==> parse_pattern_tokens(
                    s@.skip(from as int),
                ) is Some),
                parse_pattern_tokens(s@) is Some ==> parse_pattern_tokens(s@).unwrap() == done
                    + parse_pattern_tokens(s@.skip(from as int)).unwrap(),
            decreases chars@.len() - from,
        {
            let ghost suffix = s@.skip(from as int);
            let k = find_char_idx(&chars, from, chars.len(), ',');
            proof {
                assert(suffix =~= chars@.subrange(from as int, chars@.len() as int));
                assert(crate::text::find_char_from(suffix, ',', 0) == k - from);
            }
            let token = parse_row_token_range(&chars, from, k);
            proof {
                if k == chars@.len() {
                    assert(suffix =~= chars@.subrange(from as int, k as int));
                } else {
                    assert(suffix.take(k - from) =~= chars@.subrange(from as int, k as int));
                }
            }
            match token {
                None => {
                    proof {
                        assert(parse_pattern_tokens(suffix) is None);
                    }
                    return None;
                },
                Some(v) => {
                    let frames = crate::utils::get_frames_in_row(v.0);
                    rows.push(RowAndInitValue { frames, init: v.1 as u8 });
                    proof {
                        done = done.push(v);
                    }
                    if k == chars.len() {
                        // last token: the parse is complete
                        proof {
                            assert(parse_pattern_tokens(suffix) == Some(seq![v]));
                            assert(parse_pattern_tokens(s@) is Some);
                            let toks = parse_pattern_tokens(s@).unwrap();
                            assert(toks =~= done);
                        }
                        let p = AggressorPattern { pattern: rows };
                        proof {
                            let toks = parse_pattern_tokens(s@).unwrap();
                            assert(p@ =~= Seq::new(
                                toks.len(),
                                |i: int|
                                    RowSpec {
                                        frames: crate::utils::frames_in_row_spec(toks[i].0),
                                        init: toks[i].1 as u8,
                                    },
                            ));
                        }
                        return Some(p);
                    }
                    proof {
                        assert(parse_pattern_tokens(suffix) is Some ==> parse_pattern_tokens(
                            suffix,
                        ).unwrap() == seq![v] + parse_pattern_tokens(
                            suffix.skip((k - from) as int + 1),
                        ).unwrap());
                        assert(suffix.skip((k - from) as int + 1) =~= s@.skip(k as int + 1));
                        assert(done.drop_last() + seq![v] =~= done);
                    }
                    from = k + 1;
                },
            }
        }
    }
}

/// The victim a `0x<hex_phys> <idx><+|-> <aggr_pattern_idx>` token denotes,
/// or nothing when the token is malformed.
pub open spec fn parse_victim_token(s: Seq<char>) -> Option<(u64, BitFlip, usize)> {
    let k1 = crate::text::find_char_from(s, ' ', 0);
    if k1 >= s.len() {
        None
    } else {
        let k2 = crate::text::find_char_from(s, ' ', k1 + 1);
        if k2 >= s.len() {
            None
        } else if !(k1 >= 3 && s[0] == '0' && s[1] == 'x') {
            None
        } else {
            let h = s.subrange(2, k1 as int);
            if !(crate::text::all_digits(h, 16) && crate::text::digits_value_int(h, 16)
                <= u64::MAX) {
                None
            } else {
                match bitflip_of_text(s.subrange(k1 as int + 1, k2 as int)) {
                    None => None,
                    Some(flip) => {
                        let d = s.skip(k2 as int + 1);
                        if !(d.len() >= 1 && crate::text::all_digits(d, 10)
                            && crate::text::digits_value_int(d, 10) <= usize::MAX) {
                            None
                        } else {
                            Some(
                                (
                                    crate::text::digits_value_int(h, 16) as u64,
                                    flip,
                                    crate::text::digits_value_int(d, 10) as usize,
                                ),
                            )
                        }
                    },
                }
            }
        }
    }
}

/// Parses the on-disk text form of one template victim.
pub fn victim_from_text(s: &str) -> (r: Option<(u64, BitFlip, usize)>)
    ensures
        r == parse_victim_token(s@),
{
    let chars = crate::text::to_char_vec(s);
    let len = chars.len();
    let k1 = find_char_idx(&chars, 0, len, ' ');
    proof {
        assert(chars@.subrange(0, len as int) =~= s@);
    }
    if k1 == len {
        return None;
    }
    let k2 = find_char_idx(&chars, k1 + 1, len, ' ');
    proof {
        crate::text::lemma_find_char_skip(s@, ' ', (k1 + 1) as nat, 0);
        assert(s@.skip(k1 as int + 1) =~= chars@.subrange(k1 as int + 1, len as int));
    }
    if k2 == len {
        return None;
    }
    if !(k1 >= 3 && chars[0] == '0' && chars[1] == 'x') {
        return None;
    }
    let phys = match crate::text::parse_digits_range(&chars, 2, k1, 16) {
        Some(v) => v,
        None => {
            return None;
        },
    };
    // the two-character flip between the separators
    let ghost t2 = s@.subrange(k1 as int + 1, k2 as int);
    if k2 - (k1 + 1) != 2 {
        proof {
            assert(bitflip_of_text(t2) is None);
        }
        return None;
    }
    let c0 = chars[k1 + 1];
    let c1 = chars[k1 + 2];
    proof {
        assert(t2[0] == chars@[k1 as int + 1]);
        assert(t2[1] == chars@[k1 as int + 2]);
    }
    let d0 = crate::text::digit_val_of(c0);
    if d0 >= 8 {
        return None;
    }
    let flip = if c1 == '+' {
        BitFlip { flip_index: d0 as u8, flip_direction: true }
    } else if c1 == '-' {
        BitFlip { flip_index: d0 as u8, flip_direction: false }
    } else {
        return None;
    };
    proof {
        assert(bitflip_of_text(t2) == Some(flip));
        assert(s@.skip(k2 as int + 1) =~= chars@.subrange(k2 as int + 1, len as int));
    }
    let idx = match crate::text::parse_digits_range(&chars, k2 + 1, len, 10) {
        Some(v) => v,
        None => {
            return None;
        },
    };
    if idx > usize::MAX as u64 {
        return None;
    }
    Some((phys, flip, idx as usize))
}

} // verus!
