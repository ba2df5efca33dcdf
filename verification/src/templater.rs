use vstd::prelude::*;
use vstd::string::*;
use std::collections::HashMap;
use crate::config::Frame2Map;
use crate::dram::{dram_config_valid, phys_of, DRAMAddr, DRAMConfig};
use crate::serialize::{frames_of_rows, AggressorPattern, BitFlip, RowAndInitValue, RowSpec};
use crate::utils::frames_in_row_spec;

verus! {

broadcast use vstd::std_specs::hash::group_hash_axioms;

// ---------------------------------------------------------------------------
// Templating setups
//
// The templater sweeps a row range on chosen banks.  For every row index,
// bank and init-value pair, the pattern string stamps out one setup: its
// characters tag consecutive rows as victim or aggressor.  Generating the
// setups and filtering out those whose frames were not captured is logic of
// this crate; hammering them is not.
// ---------------------------------------------------------------------------

/// Byte values the victim and aggressor rows of a setup start from.
#[derive(Debug, Clone, Copy, PartialEq, Eq, Structural)]
pub struct VicAggrInit {
    pub victim_init: u8,
    pub aggr_init: u8,
}

/// The sweep configuration of a templating run.  The fraction of targets
/// the frame acquisition may drop is applied by the caller when it chooses
/// the allocator's limit.
#[derive(Debug)]
pub struct TemplaterConfig {
    /// First DRAM row index of the sweep.
    pub row_start: u64,
    /// Last DRAM row index of the sweep.
    pub row_end: u64,
    /// Bank numbers to sweep.
    pub bank_idxs: Vec<u64>,
    /// Activations per hammer burst.
    pub hammer_count: u64,
    /// First filler count of the sweep.
    pub garbage_count_start: u32,
    /// One past the last filler count of the sweep.
    pub garbage_count_end: u32,
    /// Init-value pairs to try.
    pub init_values: Vec<VicAggrInit>,
    /// Rounds per filler count.
    pub repetition: usize,
    /// Row tags, one character per row: `A` hammers, `V` watches.
    pub pattern: String,
}

/// Ghost image of a `Setup`.
pub ghost struct SetupSpec {
    pub victim_rows: Seq<RowSpec>,
    pub aggr_pattern: Seq<RowSpec>,
}

/// One candidate: the rows to watch and the pattern to hammer.
#[derive(Debug)]
pub struct Setup {
    pub victim_rows: Vec<RowAndInitValue>,
    pub aggr_pattern: AggressorPattern,
}

impl View for Setup {
    type V = SetupSpec;

    open spec fn view(&self) -> SetupSpec {
        SetupSpec {
            victim_rows: Seq::new(self.victim_rows@.len(), |i: int| self.victim_rows@[i]@),
            aggr_pattern: self.aggr_pattern@,
        }
    }
}

/// All frames a setup touches: the victim rows' pages, then the aggressor
/// rows' pages.
pub open spec fn setup_frames(s: SetupSpec) -> Seq<u64> {
    frames_of_rows(s.victim_rows) + frames_of_rows(s.aggr_pattern)
}

impl Setup {
    /// Every frame the setup touches, victims first.
    pub fn iter_all_frames(&self) -> (frames: Vec<u64>)
        ensures
            frames@ == setup_frames(self@),
    {
        let mut frames: Vec<u64> = Vec::new();
        collect_row_frames(&self.victim_rows, &mut frames);
        proof {
            assert(Seq::new(self.victim_rows@.len(), |i: int| self.victim_rows@[i]@)
                == self@.victim_rows);
        }
        collect_row_frames(&self.aggr_pattern.pattern, &mut frames);
        proof {
            assert(Seq::new(self.aggr_pattern.pattern@.len(), |i: int| self.aggr_pattern.pattern@[i]@)
                =~= self@.aggr_pattern);
            assert(frames@ =~= setup_frames(self@));
        }
        frames
    }
}

/// Appends every frame of every row of `rows` to `out`.
fn collect_row_frames(rows: &Vec<RowAndInitValue>, out: &mut Vec<u64>)
    ensures
        final(out)@ == old(out)@ + frames_of_rows(
            Seq::new(rows@.len(), |i: int| rows@[i]@),
        ),
{
    let ghost rseq = Seq::new(rows@.len(), |i: int| rows@[i]@);
    let mut i: usize = 0;
    while i < rows.len()
        invariant
            rseq == Seq::new(rows@.len(), |i0: int| rows@[i0]@),
            0 <= i <= rows@.len(),
            out@ == old(out)@ + frames_of_rows(rseq.take(i as int)),
        decreases rows@.len() - i,
    {
        let row = &rows[i];
        let ghost pre = out@;
        let mut k: usize = 0;
        while k < row.frames.len()
            invariant
                row@ == rseq[i as int],
                0 <= k <= row.frames@.len(),
                out@ == pre + row.frames@.take(k as int),
            decreases row.frames@.len() - k,
        {
            out.push(row.frames[k]);
            proof {
                assert(out@ =~= pre + row.frames@.take(k as int + 1));
            }
            k = k + 1;
        }
        proof {
            assert(rseq.take(i as int + 1).drop_last() =~= rseq.take(i as int));
            assert(rseq.take(i as int + 1).last() == rseq[i as int]);
            assert(row.frames@.take(row.frames@.len() as int) =~= row.frames@);
            assert(out@ == old(out)@ + frames_of_rows(rseq.take(i as int + 1)));
        }
        i = i + 1;
    }
    proof {
        assert(rseq.take(rseq.len() as int) =~= rseq);
    }
}

/// The base physical address of row `row` on bank `bank` under `dc`.
pub open spec fn row_addr_for(dc: DRAMConfig, bank: u64, row: u64) -> u64 {
    phys_of(DRAMAddr { bank, row, column: 0 }, dc)
}

/// The row at `row` on `bank`, initialised to `init`.
pub open spec fn row_spec_for(dc: DRAMConfig, bank: u64, row: u64, init: u8) -> RowSpec {
    RowSpec { frames: frames_in_row_spec(row_addr_for(dc, bank, row)), init }
}

/// The setup the first `i` characters of the pattern stamp out at
/// `row_idx` on `bank` with init values `iv`.
pub open spec fn setup_upto(
    pattern: Seq<char>,
    i: nat,
    dc: DRAMConfig,
    bank: u64,
    row_idx: u64,
    iv: VicAggrInit,
) -> SetupSpec
    decreases i,
{
    if i == 0 {
        SetupSpec { victim_rows: Seq::empty(), aggr_pattern: Seq::empty() }
    } else {
        let prev = setup_upto(pattern, (i - 1) as nat, dc, bank, row_idx, iv);
        let row = (row_idx + (i - 1)) as u64;
        if pattern[i - 1] == 'A' {
            SetupSpec {
                aggr_pattern: prev.aggr_pattern.push(row_spec_for(dc, bank, row, iv.aggr_init)),
                ..prev
            }
        } else {
            SetupSpec {
                victim_rows: prev.victim_rows.push(row_spec_for(dc, bank, row, iv.victim_init)),
                ..prev
            }
        }
    }
}

/// The setup the whole pattern stamps out.
pub open spec fn setup_for(
    pattern: Seq<char>,
    dc: DRAMConfig,
    bank: u64,
    row_idx: u64,
    iv: VicAggrInit,
) -> SetupSpec {
    setup_upto(pattern, pattern.len(), dc, bank, row_idx, iv)
}

/// The setups for the first `n` init-value pairs at one row and bank.
pub open spec fn setups_for_inits(
    pattern: Seq<char>,
    dc: DRAMConfig,
    bank: u64,
    row_idx: u64,
    inits: Seq<VicAggrInit>,
    n: nat,
) -> Seq<SetupSpec>
    decreases n,
{
    if n == 0 {
        Seq::empty()
    } else {
        setups_for_inits(pattern, dc, bank, row_idx, inits, (n - 1) as nat) + seq![
            setup_for(pattern, dc, bank, row_idx, inits[n - 1]),
        ]
    }
}

/// The setups for the first `n` banks at one row, over all init pairs.
pub open spec fn setups_for_banks(
    pattern: Seq<char>,
    dc: DRAMConfig,
    banks: Seq<u64>,
    row_idx: u64,
    inits: Seq<VicAggrInit>,
    n: nat,
) -> Seq<SetupSpec>
    decreases n,
{
    if n == 0 {
        Seq::empty()
    } else {
        setups_for_banks(pattern, dc, banks, row_idx, inits, (n - 1) as nat) + setups_for_inits(
            pattern,
            dc,
            banks[n - 1],
            row_idx,
            inits,
            inits.len(),
        )
    }
}

/// The setups for the first `n` row indices starting at `row_start`, over
/// all banks and init pairs.
pub open spec fn setups_for_rows(
    pattern: Seq<char>,
    dc: DRAMConfig,
    banks: Seq<u64>,
    row_start: u64,
    inits: Seq<VicAggrInit>,
    n: nat,
) -> Seq<SetupSpec>
    decreases n,
{
    if n == 0 {
        Seq::empty()
    } else {
        setups_for_rows(pattern, dc, banks, row_start, inits, (n - 1) as nat) + setups_for_banks(
            pattern,
            dc,
            banks,
            (row_start + (n - 1)) as u64,
            inits,
            banks.len(),
        )
    }
}

/// Why the sweep configuration cannot stamp out setups.
#[derive(Debug, Clone, Copy, PartialEq, Eq, Structural)]
pub enum TemplaterError {
    /// The pattern string is empty.
    EmptyPattern,
    /// The row range is shorter than the pattern.
    RowRangeTooSmall,
    /// The pattern holds a character other than `A` and `V`.
    UnknownPatternChar,
}

/// The ghost images of a setup list.
pub open spec fn setup_views(v: Seq<Setup>) -> Seq<SetupSpec> {
    Seq::new(v.len(), |i: int| v[i]@)
}

/// How many row indices the sweep visits: one setup row per start index
/// from `row_start` up to where the pattern still fits before `row_end`.
pub open spec fn sweep_row_count(row_start: u64, row_end: u64, plen: nat) -> nat {
    let bound = row_end - (plen - 1);
    if row_start <= bound {
        (bound + 1 - row_start - 1) as nat
    } else {
        0
    }
}

/// Generates every candidate setup of the sweep: for each row index, bank
/// and init pair, the pattern stamps one setup whose `A` characters become
/// aggressor rows and whose `V` characters become victim rows.  Also
/// returns every frame the setups touch, without duplicates, as the targets
/// of the frame acquisition.
pub fn parse_hammer_pattern(templater_config: &TemplaterConfig, dram_config: &DRAMConfig) -> (r:
    Result<(Vec<u64>, Vec<Setup>), TemplaterError>)
    requires
        dram_config_valid(*dram_config),
    ensures
        r is Ok <==> (templater_config.pattern@.len() >= 1 && templater_config.row_end
            >= templater_config.pattern@.len() - 1 && (forall|i: int|
            0 <= i < templater_config.pattern@.len()
                ==> (#[trigger] templater_config.pattern@[i]) == 'A'
                || templater_config.pattern@[i] == 'V')),
        r matches Err(TemplaterError::EmptyPattern) ==> templater_config.pattern@.len() == 0,
        r matches Err(TemplaterError::RowRangeTooSmall) ==> templater_config.pattern@.len() >= 1
            && templater_config.row_end < templater_config.pattern@.len() - 1,
        r matches Err(TemplaterError::UnknownPatternChar) ==> exists|i: int|
            0 <= i < templater_config.pattern@.len()
                && (#[trigger] templater_config.pattern@[i]) != 'A'
                && templater_config.pattern@[i] != 'V',
        r matches Ok(fs) ==> setup_views(fs.1@) == setups_for_rows(
            templater_config.pattern@,
            *dram_config,
            templater_config.bank_idxs@,
            templater_config.row_start,
            Seq::new(templater_config.init_values@.len(), |i: int| templater_config.init_values@[i]),
            sweep_row_count(
                templater_config.row_start,
                templater_config.row_end,
                templater_config.pattern@.len(),
            ),
        ),
        r matches Ok(fs) ==> frames_cover(fs.0@, setup_views(fs.1@)),
{
    let ghost dc = *dram_config;
    let ghost pat = templater_config.pattern@;
    let ghost banks = templater_config.bank_idxs@;
    let ghost inits = Seq::new(
        templater_config.init_values@.len(),
        |i: int| templater_config.init_values@[i],
    );
    let pstr: &str = templater_config.pattern.as_str();
    proof {
        assert(pstr@ == pat);
    }
    let plen = pstr.unicode_len();
    if plen == 0 {
        return Err(TemplaterError::EmptyPattern);
    }
    if templater_config.row_end < (plen as u64) - 1 {
        return Err(TemplaterError::RowRangeTooSmall);
    }
    let mut ci: usize = 0;
    while ci < plen
        invariant
            pat == templater_config.pattern@,
            pstr@ == pat,
            plen == pat.len(),
            0 <= ci <= plen,
            forall|i: int| 0 <= i < ci ==> (#[trigger] pat[i]) == 'A' || pat[i] == 'V',
        decreases plen - ci,
    {
        let c = pstr.get_char(ci);
        if c != 'A' && c != 'V' {
            proof {
                assert(templater_config.pattern@[ci as int] != 'A'
                    && templater_config.pattern@[ci as int] != 'V');
            }
            return Err(TemplaterError::UnknownPatternChar);
        }
        proof {
            assert(pat[ci as int] == 'A' || pat[ci as int] == 'V');
        }
        ci = ci + 1;
    }
    let row_start = templater_config.row_start;
    let row_end = templater_config.row_end;
    let bound: u64 = row_end - ((plen as u64) - 1);
    let mut setups: Vec<Setup> = Vec::new();
    let mut row_idx: u64 = row_start;
    proof {
        if row_start > bound {
            assert(sweep_row_count(row_start, row_end, pat.len()) == 0);
        }
    }
    while row_idx < bound
        invariant
            dc == *dram_config,
            dram_config_valid(dc),
            pat == templater_config.pattern@,
            pstr@ == pat,
            banks == templater_config.bank_idxs@,
            inits == Seq::new(
                templater_config.init_values@.len(),
                |i: int| templater_config.init_values@[i],
            ),
            plen == pat.len(),
            plen >= 1,
            forall|i: int| 0 <= i < plen ==> (#[trigger] pat[i]) == 'A' || pat[i] == 'V',
            row_start == templater_config.row_start,
            row_end == templater_config.row_end,
            bound == row_end - ((plen as u64) - 1),
            row_start <= row_idx,
            row_idx <= bound || row_idx == row_start,
            setup_views(setups@) == setups_for_rows(
                pat,
                dc,
                banks,
                row_start,
                inits,
                (row_idx - row_start) as nat,
            ),
        decreases bound - row_idx,
    {
        let mut b: usize = 0;
        let ghost rows_pre = setup_views(setups@);
        while b < templater_config.bank_idxs.len()
            invariant
                dc == *dram_config,
                dram_config_valid(dc),
                pat == templater_config.pattern@,
                pstr@ == pat,
                banks == templater_config.bank_idxs@,
                inits == Seq::new(
                    templater_config.init_values@.len(),
                    |i: int| templater_config.init_values@[i],
                ),
                plen == pat.len(),
                plen >= 1,
                forall|i: int| 0 <= i < plen ==> (#[trigger] pat[i]) == 'A' || pat[i] == 'V',
                row_end == templater_config.row_end,
                bound == row_end - ((plen as u64) - 1),
                row_idx < bound,
                0 <= b <= banks.len(),
                rows_pre == setup_views(setups@).take(rows_pre.len() as int),
                setup_views(setups@) == rows_pre + setups_for_banks(
                    pat,
                    dc,
                    banks,
                    row_idx,
                    inits,
                    b as nat,
                ),
            decreases banks.len() - b,
        {
            let bank = templater_config.bank_idxs[b];
            let mut v: usize = 0;
            let ghost banks_pre = setup_views(setups@);
            while v < templater_config.init_values.len()
                invariant
                    dc == *dram_config,
                    dram_config_valid(dc),
                    pat == templater_config.pattern@,
                    pstr@ == pat,
                    banks == templater_config.bank_idxs@,
                    inits == Seq::new(
                        templater_config.init_values@.len(),
                        |i: int| templater_config.init_values@[i],
                    ),
                    plen == pat.len(),
                    plen >= 1,
                    forall|i: int| 0 <= i < plen ==> (#[trigger] pat[i]) == 'A' || pat[i] == 'V',
                    row_end == templater_config.row_end,
                    bound == row_end - ((plen as u64) - 1),
                    row_idx < bound,
                    0 <= b < banks.len(),
                    bank == banks[b as int],
                    0 <= v <= inits.len(),
                    banks_pre == setup_views(setups@).take(banks_pre.len() as int),
                    setup_views(setups@) == banks_pre + setups_for_inits(
                        pat,
                        dc,
                        bank,
                        row_idx,
                        inits,
                        v as nat,
                    ),
                decreases inits.len() - v,
            {
                let iv = templater_config.init_values[v];
                proof {
                    assert(iv == inits[v as int]);
                }
                let mut victim_rows: Vec<RowAndInitValue> = Vec::new();
                let mut aggr_rows: Vec<RowAndInitValue> = Vec::new();
                let mut k: usize = 0;
                while k < plen
                    invariant
                        dc == *dram_config,
                        dram_config_valid(dc),
                        pstr@ == pat,
                        plen == pat.len(),
                        forall|i: int|
                            0 <= i < plen ==> (#[trigger] pat[i]) == 'A' || pat[i] == 'V',
                        row_end == templater_config.row_end,
                        bound == row_end - ((plen as u64) - 1),
                        row_idx < bound,
                        inits == Seq::new(
                            templater_config.init_values@.len(),
                            |i: int| templater_config.init_values@[i],
                        ),
                        0 <= v < inits.len(),
                        iv == inits[v as int],
                        0 <= k <= plen,
                        Seq::new(victim_rows@.len(), |i: int| victim_rows@[i]@) == setup_upto(
                            pat,
                            k as nat,
                            dc,
                            bank,
                            row_idx,
                            iv,
                        ).victim_rows,
                        Seq::new(aggr_rows@.len(), |i: int| aggr_rows@[i]@) == setup_upto(
                            pat,
                            k as nat,
                            dc,
                            bank,
                            row_idx,
                            iv,
                        ).aggr_pattern,
                    decreases plen - k,
                {
                    proof {
                        assert(row_idx + (k as u64) <= row_end);
                    }
                    let row: u64 = row_idx + (k as u64);
                    let d = DRAMAddr { bank, row, column: 0 };
                    let phys = crate::dram::dram_to_phys(&d, dram_config);
                    let frames = crate::utils::get_frames_in_row(phys);
                    let c = pstr.get_char(k);
                    let ghost vic_pre = Seq::new(victim_rows@.len(), |i: int| victim_rows@[i]@);
                    let ghost agg_pre = Seq::new(aggr_rows@.len(), |i: int| aggr_rows@[i]@);
                    if c == 'A' {
                        aggr_rows.push(RowAndInitValue { frames, init: iv.aggr_init });
                        proof {
                            assert(Seq::new(aggr_rows@.len(), |i: int| aggr_rows@[i]@)
                                =~= agg_pre.push(row_spec_for(dc, bank, row, iv.aggr_init)));
                            assert(Seq::new(victim_rows@.len(), |i: int| victim_rows@[i]@)
                                =~= vic_pre);
                        }
                    } else {
                        victim_rows.push(RowAndInitValue { frames, init: iv.victim_init });
                        proof {
                            assert(Seq::new(victim_rows@.len(), |i: int| victim_rows@[i]@)
                                =~= vic_pre.push(row_spec_for(dc, bank, row, iv.victim_init)));
                            assert(Seq::new(aggr_rows@.len(), |i: int| aggr_rows@[i]@)
                                =~= agg_pre);
                        }
                    }
                    k = k + 1;
                }
                setups.push(
                    Setup { victim_rows, aggr_pattern: AggressorPattern { pattern: aggr_rows } },
                );
                proof {
                    let sv = setup_views(setups@);
                    let sf = setup_for(pat, dc, bank, row_idx, inits[v as int]);
                    assert(sv.last().victim_rows == sf.victim_rows);
                    assert(sv.last().aggr_pattern == sf.aggr_pattern);
                    assert(sv.last() == sf);
                    assert(sv.drop_last() =~= banks_pre + setups_for_inits(
                        pat,
                        dc,
                        bank,
                        row_idx,
                        inits,
                        v as nat,
                    ));
                    lemma_setups_for_inits_unfold(pat, dc, bank, row_idx, inits, v as nat);
                    assert(setups_for_inits(pat, dc, bank, row_idx, inits, v as nat + 1)
                        == setups_for_inits(pat, dc, bank, row_idx, inits, v as nat) + seq![sf]);
                    let prev = banks_pre + setups_for_inits(pat, dc, bank, row_idx, inits, v as nat);
                    assert(sv.drop_last() == prev);
                    assert(sv =~= prev.push(sf)) by {
                        assert(sv.len() == prev.len() + 1);
                        assert forall|i: int| 0 <= i < sv.len() implies sv[i] == prev.push(sf)[i] by {
                            if i < prev.len() {
                                assert(sv[i] == sv.drop_last()[i]);
                            } else {
                                assert(sv[i] == sv.last());
                            }
                        }
                    }
                    assert(prev.push(sf) =~= banks_pre + (setups_for_inits(
                        pat,
                        dc,
                        bank,
                        row_idx,
                        inits,
                        v as nat,
                    ) + seq![sf]));
                    assert(sv =~= banks_pre + setups_for_inits(
                        pat,
                        dc,
                        bank,
                        row_idx,
                        inits,
                        v as nat + 1,
                    ));
                    assert(banks_pre == sv.take(banks_pre.len() as int)) by {
                        assert(banks_pre =~= sv.take(banks_pre.len() as int));
                    }
                }
                v = v + 1;
            }
            proof {
                lemma_setups_for_banks_unfold(pat, dc, banks, row_idx, inits, b as nat);
                assert(setup_views(setups@) =~= rows_pre + setups_for_banks(
                    pat,
                    dc,
                    banks,
                    row_idx,
                    inits,
                    b as nat + 1,
                ));
                assert(rows_pre == setup_views(setups@).take(rows_pre.len() as int)) by {
                    assert(rows_pre =~= setup_views(setups@).take(rows_pre.len() as int));
                }
            }
            b = b + 1;
        }
        proof {
            lemma_setups_for_rows_unfold(pat, dc, banks, row_start, inits, (row_idx - row_start) as nat, row_idx);
            assert(setup_views(setups@) =~= setups_for_rows(
                pat,
                dc,
                banks,
                row_start,
                inits,
                (row_idx - row_start) as nat + 1,
            ));
        }
        row_idx = row_idx + 1;
    }
    proof {
        if row_start <= bound {
            assert((row_idx - row_start) as nat == sweep_row_count(row_start, row_end, pat.len()));
        }
    }

    // collect every touched frame once, as the acquisition targets
    let ghost all = setup_views(setups@);
    let mut frames_to_allocate: Vec<u64> = Vec::new();
    let mut si: usize = 0;
    while si < setups.len()
        invariant
            all == setup_views(setups@),
            0 <= si <= all.len(),
            frames_to_allocate@.no_duplicates(),
            forall|f: u64|
                #[trigger] frames_to_allocate@.contains(f) <==> exists|s0: int|
                    0 <= s0 < si && setup_frames(#[trigger] all[s0]).contains(f),
        decreases all.len() - si,
    {
        let fs = setups[si].iter_all_frames();
        let mut fi: usize = 0;
        while fi < fs.len()
            invariant
                all == setup_views(setups@),
                0 <= si < all.len(),
                fs@ == setup_frames(all[si as int]),
                0 <= fi <= fs@.len(),
                frames_to_allocate@.no_duplicates(),
                forall|f: u64|
                    #[trigger] frames_to_allocate@.contains(f) <==> ((exists|s0: int|
                        0 <= s0 < si && setup_frames(#[trigger] all[s0]).contains(f)) || fs@.take(
                        fi as int,
                    ).contains(f)),
            decreases fs@.len() - fi,
        {
            let f = fs[fi];
            let ghost pre = frames_to_allocate@;
            let mut seen = false;
            let mut j: usize = 0;
            while j < frames_to_allocate.len()
                invariant
                    pre == frames_to_allocate@,
                    0 <= j <= pre.len(),
                    seen == (exists|m: int| 0 <= m < j && #[trigger] pre[m] == f),
                decreases pre.len() - j,
            {
                if frames_to_allocate[j] == f {
                    proof {
                        assert(pre[j as int] == f);
                    }
                    seen = true;
                }
                j = j + 1;
            }
            proof {
                assert(seen == pre.contains(f));
            }
            if !seen {
                frames_to_allocate.push(f);
            }
            proof {
                assert(fs@.take(fi as int + 1).drop_last() =~= fs@.take(fi as int));
                assert(fs@.take(fi as int + 1).last() == fs@[fi as int]);
                assert forall|f0: u64| #[trigger] frames_to_allocate@.contains(f0) implies ((exists|
                    s0: int,
                |
                    0 <= s0 < si && setup_frames(#[trigger] all[s0]).contains(f0)) || fs@.take(
                    fi as int + 1,
                ).contains(f0)) by {
                    if pre.contains(f0) {
                    } else {
                        assert(f0 == f);
                        assert(fs@.take(fi as int + 1)[fi as int] == f);
                    }
                }
                assert forall|f0: u64|
                    ((exists|s0: int|
                        0 <= s0 < si && setup_frames(#[trigger] all[s0]).contains(f0)) || fs@.take(
                        fi as int + 1,
                    ).contains(f0)) implies #[trigger] frames_to_allocate@.contains(f0) by {
                    if exists|s0: int|
                        0 <= s0 < si && setup_frames(#[trigger] all[s0]).contains(f0) {
                        assert(pre.contains(f0));
                        let m = choose|m: int| 0 <= m < pre.len() && #[trigger] pre[m] == f0;
                        assert(frames_to_allocate@[m] == f0);
                    } else {
                        let m = choose|m: int|
                            0 <= m < fi + 1 && #[trigger] fs@.take(fi as int + 1)[m] == f0;
                        if m < fi {
                            assert(fs@.take(fi as int)[m] == f0);
                            assert(pre.contains(f0));
                            let m2 = choose|m2: int|
                                0 <= m2 < pre.len() && #[trigger] pre[m2] == f0;
                            assert(frames_to_allocate@[m2] == f0);
                        } else {
                            assert(f0 == f);
                            if pre.contains(f) {
                                let m2 = choose|m2: int|
                                    0 <= m2 < pre.len() && #[trigger] pre[m2] == f;
                                assert(frames_to_allocate@[m2] == f);
                            } else {
                                assert(frames_to_allocate@.last() == f);
                            }
                        }
                    }
                }
                if !pre.contains(f) {
                    assert forall|k1: int, k2: int|
                        0 <= k1 < k2 < frames_to_allocate@.len() implies frames_to_allocate@[k1]
                        != frames_to_allocate@[k2] by {
                        if k2 == frames_to_allocate@.len() - 1 {
                            assert(pre[k1] == frames_to_allocate@[k1]);
                            assert(pre.contains(frames_to_allocate@[k1]));
                        }
                    }
                }
            }
            fi = fi + 1;
        }
        proof {
            assert(fs@.take(fs@.len() as int) =~= fs@);
            assert forall|f0: u64| #[trigger] frames_to_allocate@.contains(f0) implies (exists|
                s0: int,
            |
                0 <= s0 < si + 1 && setup_frames(#[trigger] all[s0]).contains(f0)) by {
                if exists|s0: int| 0 <= s0 < si && setup_frames(#[trigger] all[s0]).contains(f0) {
                } else {
                    assert(fs@.contains(f0));
                    assert(setup_frames(all[si as int]).contains(f0));
                }
            }
        }
        si = si + 1;
    }
    proof {
        assert forall|f: u64| #[trigger] frames_to_allocate@.contains(f) implies exists|s2: int|
            0 <= s2 < setup_views(setups@).len() && setup_frames(
                #[trigger] setup_views(setups@)[s2],
            ).contains(f) by {
            let s0 = choose|s0: int|
                0 <= s0 < si && setup_frames(#[trigger] all[s0]).contains(f);
            assert(setup_views(setups@)[s0] == all[s0]);
            assert(setup_frames(setup_views(setups@)[s0]).contains(f));
        }
        assert forall|f: u64|
            (exists|s2: int|
                0 <= s2 < setup_views(setups@).len() && setup_frames(
                    #[trigger] setup_views(setups@)[s2],
                ).contains(f)) implies #[trigger] frames_to_allocate@.contains(f) by {
            let s2 = choose|s2: int|
                0 <= s2 < setup_views(setups@).len() && setup_frames(
                    #[trigger] setup_views(setups@)[s2],
                ).contains(f);
            assert(setup_frames(all[s2]).contains(f));
        }
        assert(frames_cover(frames_to_allocate@, setup_views(setups@)));
    }
    Ok((frames_to_allocate, setups))
}

/// A setup all of whose frames were captured.
pub open spec fn setup_held(s: SetupSpec, m: Map<u64, u64>) -> bool {
    forall|i: int| 0 <= i < setup_frames(s).len() ==> m.contains_key(#[trigger] setup_frames(s)[i])
}

/// `frames` lists every frame the setups touch, each exactly once.
pub open spec fn frames_cover(frames: Seq<u64>, setups: Seq<SetupSpec>) -> bool {
    frames.no_duplicates() && (forall|f: u64|
        #[trigger] frames.contains(f) <==> exists|si: int|
            0 <= si < setups.len() && setup_frames(#[trigger] setups[si]).contains(f))
}

/// The setups of `s` whose every frame `m` holds, in order.
pub open spec fn held_setups(s: Seq<SetupSpec>, m: Map<u64, u64>) -> Seq<SetupSpec>
    decreases s.len(),
{
    if s.len() == 0 {
        Seq::empty()
    } else {
        let p = held_setups(s.drop_last(), m);
        if setup_held(s.last(), m) {
            p.push(s.last())
        } else {
            p
        }
    }
}

/// The setups of `s` missing a frame in `m`, in order.
pub open spec fn missing_setups(s: Seq<SetupSpec>, m: Map<u64, u64>) -> Seq<SetupSpec>
    decreases s.len(),
{
    if s.len() == 0 {
        Seq::empty()
    } else {
        let p = missing_setups(s.drop_last(), m);
        if !setup_held(s.last(), m) {
            p.push(s.last())
        } else {
            p
        }
    }
}

proof fn lemma_split_unfold(s: Seq<SetupSpec>, m: Map<u64, u64>)
    requires
        s.len() > 0,
    ensures
        held_setups(s, m) == (if setup_held(s.last(), m) {
            held_setups(s.drop_last(), m).push(s.last())
        } else {
            held_setups(s.drop_last(), m)
        }),
        missing_setups(s, m) == (if !setup_held(s.last(), m) {
            missing_setups(s.drop_last(), m).push(s.last())
        } else {
            missing_setups(s.drop_last(), m)
        }),
{
}

/// Splits the setups into those whose every frame was captured and those
/// missing one, both in their given order.
pub fn filter_whole_setups(setups: Vec<Setup>, frame2map: &Frame2Map) -> (r: (Vec<Setup>, Vec<
    Setup,
>))
    requires
        vstd::std_specs::hash::obeys_key_model::<u64>(),
    ensures
        setup_views(r.0@) == held_setups(setup_views(setups@), frame2map@),
        setup_views(r.1@) == missing_setups(setup_views(setups@), frame2map@),
{
    let ghost input = setup_views(setups@);
    let mut rest = setups;
    let mut kept: Vec<Setup> = Vec::new();
    let mut discarded: Vec<Setup> = Vec::new();
    let ghost mut done: int = 0;
    while rest.len() > 0
        invariant
            vstd::std_specs::hash::obeys_key_model::<u64>(),
            0 <= done <= input.len(),
            setup_views(rest@) =~= input.skip(done),
            setup_views(kept@) == held_setups(input.take(done), frame2map@),
            setup_views(discarded@) == missing_setups(input.take(done), frame2map@),
        decreases rest@.len(),
    {
        let ghost rest_pre = rest@;
        let s = rest.remove(0);
        proof {
            assert(setup_views(rest_pre).len() == input.skip(done).len());
            assert(done < input.len());
            assert(setup_views(rest_pre)[0] == input.skip(done)[0]);
            assert(input.skip(done)[0] == input[done]);
            assert(s@ == input[done]);
            assert forall|i: int| 0 <= i < rest@.len() implies setup_views(rest@)[i]
                == input.skip(done + 1)[i] by {
                assert(rest@[i] == rest_pre[i + 1]);
                assert(setup_views(rest_pre)[i + 1] == input.skip(done)[i + 1]);
                assert(input.skip(done)[i + 1] == input[done + 1 + i]);
                assert(input.skip(done + 1)[i] == input[done + 1 + i]);
            }
            assert(setup_views(rest@) =~= input.skip(done + 1));
        }
        let fs = s.iter_all_frames();
        let mut held = true;
        let mut fi: usize = 0;
        while fi < fs.len()
            invariant
                vstd::std_specs::hash::obeys_key_model::<u64>(),
                fs@ == setup_frames(s@),
                0 <= fi <= fs@.len(),
                held == (forall|i: int|
                    0 <= i < fi ==> frame2map@.contains_key(#[trigger] fs@[i])),
            decreases fs@.len() - fi,
        {
            if !frame2map.contains_key(&fs[fi]) {
                held = false;
            }
            fi = fi + 1;
        }
        proof {
            assert(held == setup_held(s@, frame2map@));
            assert(input.take(done + 1).drop_last() =~= input.take(done));
            assert(input.take(done + 1).last() == input[done]);
            lemma_split_unfold(input.take(done + 1), frame2map@);
        }
        let ghost kept_pre = setup_views(kept@);
        let ghost disc_pre = setup_views(discarded@);
        if held {
            kept.push(s);
            proof {
                assert(setup_views(kept@) =~= kept_pre.push(s@));
                assert(setup_views(kept@) == held_setups(input.take(done + 1), frame2map@));
                assert(setup_views(discarded@) == missing_setups(
                    input.take(done + 1),
                    frame2map@,
                ));
            }
        } else {
            discarded.push(s);
            proof {
                assert(setup_views(discarded@) =~= disc_pre.push(s@));
                assert(setup_views(discarded@) == missing_setups(
                    input.take(done + 1),
                    frame2map@,
                ));
                assert(setup_views(kept@) =~= kept_pre);
                assert(setup_views(kept@) == held_setups(input.take(done + 1), frame2map@));
            }
        }
        proof {
            done = done + 1;
        }
    }
    proof {
        assert(input.take(done) =~= input);
    }
    (kept, discarded)
}


proof fn lemma_setups_for_inits_unfold(
    pattern: Seq<char>,
    dc: DRAMConfig,
    bank: u64,
    row_idx: u64,
    inits: Seq<VicAggrInit>,
    v: nat,
)
    ensures
        setups_for_inits(pattern, dc, bank, row_idx, inits, v + 1) == setups_for_inits(
            pattern,
            dc,
            bank,
            row_idx,
            inits,
            v,
        ) + seq![setup_for(pattern, dc, bank, row_idx, inits[v as int])],
{
}

proof fn lemma_setups_for_banks_unfold(
    pattern: Seq<char>,
    dc: DRAMConfig,
    banks: Seq<u64>,
    row_idx: u64,
    inits: Seq<VicAggrInit>,
    b: nat,
)
    ensures
        setups_for_banks(pattern, dc, banks, row_idx, inits, b + 1) == setups_for_banks(
            pattern,
            dc,
            banks,
            row_idx,
            inits,
            b,
        ) + setups_for_inits(pattern, dc, banks[b as int], row_idx, inits, inits.len()),
{
}

proof fn lemma_setups_for_rows_unfold(
    pattern: Seq<char>,
    dc: DRAMConfig,
    banks: Seq<u64>,
    row_start: u64,
    inits: Seq<VicAggrInit>,
    n: nat,
    row_idx: u64,
)
    requires
        row_idx == row_start + n,
    ensures
        setups_for_rows(pattern, dc, banks, row_start, inits, n + 1) == setups_for_rows(
            pattern,
            dc,
            banks,
            row_start,
            inits,
            n,
        ) + setups_for_banks(pattern, dc, banks, row_idx, inits, banks.len()),
{
}

// ---------------------------------------------------------------------------
// Template accumulation
//
// Every flip the templater observes is interned: the aggressor pattern that
// caused it gets a stable index in the pattern table, the (address, flip,
// pattern) triple gets a stable index in the victim table, and the victim
// index is appended to the distribution bucket of the current filler count
// and round.
// ---------------------------------------------------------------------------

/// The ghost images of a pattern table.
pub open spec fn pattern_views(v: Seq<AggressorPattern>) -> Seq<Seq<RowSpec>> {
    Seq::new(v.len(), |i: int| v[i]@)
}

/// Index of the first pattern equal to `p`; the length when none is.
pub open spec fn find_pattern_from(ps: Seq<Seq<RowSpec>>, p: Seq<RowSpec>, i: nat) -> nat
    decreases ps.len() - i,
{
    if i >= ps.len() {
        ps.len()
    } else if ps[i as int] == p {
        i
    } else {
        find_pattern_from(ps, p, i + 1)
    }
}

/// Index of the first victim triple equal to `t`; the length when none is.
pub open spec fn find_victim_from(vs: Seq<(u64, BitFlip, usize)>, t: (u64, BitFlip, usize), i: nat) -> nat
    decreases vs.len() - i,
{
    if i >= vs.len() {
        vs.len()
    } else if vs[i as int] == t {
        i
    } else {
        find_victim_from(vs, t, i + 1)
    }
}

/// Index of the distribution bucket of filler count `gc`; the length when
/// none exists yet.
pub open spec fn find_gc_from(ds: Seq<(u32, Vec<Vec<usize>>)>, gc: u32, i: nat) -> nat
    decreases ds.len() - i,
{
    if i >= ds.len() {
        ds.len()
    } else if ds[i as int].0 == gc {
        i
    } else {
        find_gc_from(ds, gc, i + 1)
    }
}

/// The discoveries of a templating run: interned aggressor patterns and
/// victims, and per filler count the victim indices seen in each round.
pub struct TemplateAccumulator {
    /// Every distinct aggressor pattern observed to cause a flip.
    pub aggr_patterns: Vec<AggressorPattern>,
    /// Every distinct (address, flip, pattern index) triple observed.
    pub victims: Vec<(u64, BitFlip, usize)>,
    /// Per filler count, per round, the victim indices observed.
    pub distribution: Vec<(u32, Vec<Vec<usize>>)>,
    /// Rounds per filler count; every distribution bucket holds this many
    /// lists.
    pub repetition: usize,
}

impl TemplateAccumulator {
    /// Every distribution bucket holds one list per round.
    pub open spec fn wf(self) -> bool {
        forall|d: int|
            0 <= d < self.distribution@.len() ==> (#[trigger] self.distribution@[d]).1@.len()
                == self.repetition
    }

    /// An empty accumulator for a run of `repetition` rounds.
    pub fn new(repetition: usize) -> (a: TemplateAccumulator)
        ensures
            a.wf(),
            a.aggr_patterns@.len() == 0,
            a.victims@.len() == 0,
            a.distribution@.len() == 0,
            a.repetition == repetition,
    {
        TemplateAccumulator {
            aggr_patterns: Vec::new(),
            victims: Vec::new(),
            distribution: Vec::new(),
            repetition,
        }
    }

    /// Records one observed flip at `victim_addr` under `aggr_pattern`, seen
    /// with `garbage_count` fillers in round `rep`.  The pattern and the
    /// victim triple are interned at their first-seen indices; the victim's
    /// index is appended to the round's list in the filler count's bucket,
    /// which is created when the filler count is new.
    pub fn record_flip(
        &mut self,
        victim_addr: u64,
        flip: BitFlip,
        aggr_pattern: &AggressorPattern,
        garbage_count: u32,
        rep: usize,
    )
        requires
            old(self).wf(),
            rep < old(self).repetition,
        ensures
            final(self).wf(),
            final(self).repetition == old(self).repetition,
            // pattern interning
            ({
                let ps0 = pattern_views(old(self).aggr_patterns@);
                let pidx = find_pattern_from(ps0, aggr_pattern@, 0);
                &&& (pidx < ps0.len() ==> pattern_views(final(self).aggr_patterns@) == ps0)
                &&& (pidx == ps0.len() ==> pattern_views(final(self).aggr_patterns@) == ps0.push(
                    aggr_pattern@,
                ))
                // victim interning
                &&& ({
                    let vs0 = old(self).victims@;
                    let trip = (victim_addr, flip, pidx as usize);
                    let vidx = find_victim_from(vs0, trip, 0);
                    &&& (vidx < vs0.len() ==> final(self).victims@ == vs0)
                    &&& (vidx == vs0.len() ==> final(self).victims@ == vs0.push(trip))
                    // distribution bucket
                    &&& ({
                        let ds0 = old(self).distribution@;
                        let d = find_gc_from(ds0, garbage_count, 0);
                        &&& (d < ds0.len() ==> {
                            &&& final(self).distribution@.len() == ds0.len()
                            &&& forall|e: int|
                                0 <= e < ds0.len() && e != d
                                    ==> #[trigger] final(self).distribution@[e] == ds0[e]
                            &&& final(self).distribution@[d as int].0 == garbage_count
                            &&& final(self).distribution@[d as int].1@.len() == ds0[d as int].1@.len()
                            &&& forall|r: int|
                                0 <= r < ds0[d as int].1@.len() && r != rep
                                    ==> #[trigger] final(self).distribution@[d as int].1@[r]
                                    == ds0[d as int].1@[r]
                            &&& final(self).distribution@[d as int].1@[rep as int]@
                                == ds0[d as int].1@[rep as int]@.push(vidx as usize)
                        })
                        &&& (d == ds0.len() ==> {
                            &&& final(self).distribution@.len() == ds0.len() + 1
                            &&& forall|e: int|
                                0 <= e < ds0.len() ==> #[trigger] final(self).distribution@[e]
                                    == ds0[e]
                            &&& final(self).distribution@[d as int].0 == garbage_count
                            &&& final(self).distribution@[d as int].1@.len() == old(self).repetition
                            &&& forall|r: int|
                                0 <= r < old(self).repetition && r != rep
                                    ==> (#[trigger] final(self).distribution@[d as int].1@[r])@
                                    == Seq::<usize>::empty()
                            &&& final(self).distribution@[d as int].1@[rep as int]@ == seq![
                                vidx as usize,
                            ]
                        })
                    })
                })
            }),
    {
        let ghost ps0 = pattern_views(self.aggr_patterns@);
        // intern the pattern
        let mut pidx: usize = 0;
        loop
            invariant
                ps0 == pattern_views(self.aggr_patterns@),
                0 <= pidx <= ps0.len(),
                find_pattern_from(ps0, aggr_pattern@, 0) == find_pattern_from(
                    ps0,
                    aggr_pattern@,
                    pidx as nat,
                ),
            ensures
                pidx == find_pattern_from(ps0, aggr_pattern@, 0),
                ps0 == pattern_views(self.aggr_patterns@),
                pidx <= ps0.len(),
            decreases ps0.len() - pidx,
        {
            if pidx >= self.aggr_patterns.len() {
                break ;
            }
            if crate::serialize::patterns_equal_pub(&self.aggr_patterns[pidx], aggr_pattern) {
                break ;
            }
            pidx = pidx + 1;
        }
        if pidx == self.aggr_patterns.len() {
            let copy = crate::serialize::duplicate_pattern(aggr_pattern);
            self.aggr_patterns.push(copy);
            proof {
                assert(pattern_views(self.aggr_patterns@) =~= ps0.push(aggr_pattern@));
            }
        }
        // intern the victim triple
        let ghost vs0 = self.victims@;
        let trip: (u64, BitFlip, usize) = (victim_addr, flip, pidx);
        let mut vidx: usize = 0;
        loop
            invariant
                vs0 == self.victims@,
                0 <= vidx <= vs0.len(),
                find_victim_from(vs0, trip, 0) == find_victim_from(vs0, trip, vidx as nat),
            ensures
                vidx == find_victim_from(vs0, trip, 0),
                vs0 == self.victims@,
                vidx <= vs0.len(),
            decreases vs0.len() - vidx,
        {
            if vidx >= self.victims.len() {
                break ;
            }
            let v = self.victims[vidx];
            if v.0 == trip.0 && v.1.flip_index == trip.1.flip_index && v.1.flip_direction
                == trip.1.flip_direction && v.2 == trip.2 {
                proof {
                    assert(vs0[vidx as int] == trip);
                }
                break ;
            }
            proof {
                assert(vs0[vidx as int] != trip);
            }
            vidx = vidx + 1;
        }
        if vidx == self.victims.len() {
            self.victims.push(trip);
        }
        // append to the distribution bucket
        let ghost ds0 = self.distribution@;
        let mut d: usize = 0;
        loop
            invariant
                ds0 == self.distribution@,
                0 <= d <= ds0.len(),
                find_gc_from(ds0, garbage_count, 0) == find_gc_from(ds0, garbage_count, d as nat),
            ensures
                d == find_gc_from(ds0, garbage_count, 0),
                ds0 == self.distribution@,
                d <= ds0.len(),
                d < ds0.len() ==> ds0[d as int].0 == garbage_count,
            decreases ds0.len() - d,
        {
            if d >= self.distribution.len() {
                break ;
            }
            if self.distribution[d].0 == garbage_count {
                break ;
            }
            d = d + 1;
        }
        if d == self.distribution.len() {
            let mut lists: Vec<Vec<usize>> = Vec::new();
            let mut r: usize = 0;
            while r < self.repetition
                invariant
                    0 <= r <= self.repetition,
                    lists@.len() == r,
                    forall|e: int| 0 <= e < r ==> (#[trigger] lists@[e])@ == Seq::<usize>::empty(),
                decreases self.repetition - r,
            {
                lists.push(Vec::new());
                r = r + 1;
            }
            self.distribution.push((garbage_count, lists));
        }
        proof {
            if d < ds0.len() {
                assert(self.distribution@[d as int].1@.len() == self.repetition);
            } else {
                assert(self.distribution@[d as int].1@.len() == self.repetition);
            }
        }
        let ghost ds1 = self.distribution@;
        let mut entry = self.distribution.remove(d);
        let ghost inner0 = entry.1@;
        let mut inner = entry.1.remove(rep);
        inner.push(vidx);
        entry.1.insert(rep, inner);
        proof {
            assert(entry.1@ =~= inner0.update(rep as int, inner));
        }
        self.distribution.insert(d, entry);
        proof {
            assert(self.distribution@ =~= ds1.update(d as int, (ds1[d as int].0, entry.1)));
            assert(entry.1@.len() == self.repetition);
            assert forall|e: int|
                0 <= e < self.distribution@.len() implies (#[trigger] self.distribution@[e]).1@.len()
                == self.repetition by {
                if e != d as int {
                    assert(self.distribution@[e] == ds1[e]);
                }
            }
        }
    }
}

/// The acquisition targets of a template replay: the page frame of every
/// recorded victim and every frame of every aggressor pattern, each once.
pub fn template_frames_to_allocate(
    victims: &Vec<(u64, BitFlip, usize)>,
    aggr_patterns: &Vec<AggressorPattern>,
) -> (frames: Vec<u64>)
    ensures
        frames@.no_duplicates(),
        forall|f: u64|
            #[trigger] frames@.contains(f) <==> ((exists|v: int|
                0 <= v < victims@.len() && ((#[trigger] victims@[v]).0
                    & crate::config::PAGE_ALIGN_MASK) == f) || (exists|p: int, r: int|
                0 <= p < aggr_patterns@.len() && 0 <= r < aggr_patterns@[p]@.len()
                    && (#[trigger] aggr_patterns@[p]@[r]).frames.contains(f))),
{
    let mut frames: Vec<u64> = Vec::new();
    let mut v: usize = 0;
    while v < victims.len()
        invariant
            0 <= v <= victims@.len(),
            frames@.no_duplicates(),
            forall|f: u64|
                #[trigger] frames@.contains(f) <==> exists|v0: int|
                    0 <= v0 < v && ((#[trigger] victims@[v0]).0 & crate::config::PAGE_ALIGN_MASK)
                        == f,
        decreases victims@.len() - v,
    {
        let masked = victims[v].0 & crate::config::PAGE_ALIGN_MASK;
        crate::utils::push_unique(&mut frames, masked);
        proof {
            assert(victims@[v as int].0 & crate::config::PAGE_ALIGN_MASK == masked);
        }
        v = v + 1;
    }
    let ghost vic_cond = |f: u64|
        exists|v0: int|
            0 <= v0 < victims@.len() && ((#[trigger] victims@[v0]).0
                & crate::config::PAGE_ALIGN_MASK) == f;
    let mut p: usize = 0;
    while p < aggr_patterns.len()
        invariant
            vic_cond == (|f: u64|
                exists|v0: int|
                    0 <= v0 < victims@.len() && ((#[trigger] victims@[v0]).0
                        & crate::config::PAGE_ALIGN_MASK) == f),
            0 <= p <= aggr_patterns@.len(),
            frames@.no_duplicates(),
            forall|f: u64|
                #[trigger] frames@.contains(f) <==> (vic_cond(f) || (exists|p0: int, r: int|
                    0 <= p0 < p && 0 <= r < aggr_patterns@[p0]@.len() && (
                    #[trigger] aggr_patterns@[p0]@[r]).frames.contains(f))),
        decreases aggr_patterns@.len() - p,
    {
        let pat = &aggr_patterns[p];
        let mut r: usize = 0;
        while r < pat.pattern.len()
            invariant
                vic_cond == (|f: u64|
                    exists|v0: int|
                        0 <= v0 < victims@.len() && ((#[trigger] victims@[v0]).0
                            & crate::config::PAGE_ALIGN_MASK) == f),
                0 <= p < aggr_patterns@.len(),
                pat@ == aggr_patterns@[p as int]@,
                pat.pattern@.len() == pat@.len(),
                0 <= r <= pat@.len(),
                frames@.no_duplicates(),
                forall|f: u64|
                    #[trigger] frames@.contains(f) <==> (vic_cond(f) || (exists|p0: int, r0: int|
                        0 <= p0 < p && 0 <= r0 < aggr_patterns@[p0]@.len() && (
                        #[trigger] aggr_patterns@[p0]@[r0]).frames.contains(f)) || (exists|r0: int|
                        0 <= r0 < r && (#[trigger] pat@[r0]).frames.contains(f))),
            decreases pat@.len() - r,
        {
            let row = &pat.pattern[r];
            let ghost row_spec = pat@[r as int];
            let mut k: usize = 0;
            while k < row.frames.len()
                invariant
                    vic_cond == (|f: u64|
                        exists|v0: int|
                            0 <= v0 < victims@.len() && ((#[trigger] victims@[v0]).0
                                & crate::config::PAGE_ALIGN_MASK) == f),
                    0 <= p < aggr_patterns@.len(),
                    pat@ == aggr_patterns@[p as int]@,
                    0 <= r < pat@.len(),
                    row_spec == pat@[r as int],
                    row@ == row_spec,
                    0 <= k <= row.frames@.len(),
                    frames@.no_duplicates(),
                    forall|f: u64|
                        #[trigger] frames@.contains(f) <==> (vic_cond(f) || (exists|
                        p0: int,
                        r0: int,
                    |
                            0 <= p0 < p && 0 <= r0 < aggr_patterns@[p0]@.len() && (
                            #[trigger] aggr_patterns@[p0]@[r0]).frames.contains(f)) || (exists|
                        r0: int,
                    |
                            0 <= r0 < r && (#[trigger] pat@[r0]).frames.contains(f)) || (exists|
                        k0: int,
                    |
                            0 <= k0 < k && #[trigger] row_spec.frames[k0] == f)),
                decreases row.frames@.len() - k,
            {
                crate::utils::push_unique(&mut frames, row.frames[k]);
                proof {
                    assert(row_spec.frames[k as int] == row.frames@[k as int]);
                }
                k = k + 1;
            }
            proof {
                assert forall|f: u64| #[trigger] frames@.contains(f) implies (vic_cond(f) || (
                exists|p0: int, r0: int|
                    0 <= p0 < p && 0 <= r0 < aggr_patterns@[p0]@.len() && (
                    #[trigger] aggr_patterns@[p0]@[r0]).frames.contains(f)) || (exists|r0: int|
                    0 <= r0 < r + 1 && (#[trigger] pat@[r0]).frames.contains(f))) by {
                    if !vic_cond(f) && !(exists|p0: int, r0: int|
                        0 <= p0 < p && 0 <= r0 < aggr_patterns@[p0]@.len() && (
                        #[trigger] aggr_patterns@[p0]@[r0]).frames.contains(f)) {
                        if exists|r0: int| 0 <= r0 < r && (#[trigger] pat@[r0]).frames.contains(
                            f,
                        ) {
                        } else {
                            let k0 = choose|k0: int|
                                0 <= k0 < row.frames@.len() && #[trigger] row_spec.frames[k0]
                                    == f;
                            assert(pat@[r as int].frames.contains(f));
                        }
                    }
                }
                assert forall|f: u64|
                    (vic_cond(f) || (exists|p0: int, r0: int|
                        0 <= p0 < p && 0 <= r0 < aggr_patterns@[p0]@.len() && (
                        #[trigger] aggr_patterns@[p0]@[r0]).frames.contains(f)) || (exists|
                    r0: int,
                |
                        0 <= r0 < r + 1 && (#[trigger] pat@[r0]).frames.contains(
                            f,
                        ))) implies #[trigger] frames@.contains(f) by {
                    if exists|r0: int| 0 <= r0 < r + 1 && (#[trigger] pat@[r0]).frames.contains(
                        f,
                    ) {
                        let r0 = choose|r0: int|
                            0 <= r0 < r + 1 && (#[trigger] pat@[r0]).frames.contains(f);
                        if r0 == r as int {
                            let k0 = choose|k0: int|
                                0 <= k0 < row_spec.frames.len() && #[trigger] row_spec.frames[k0]
                                    == f;
                        }
                    }
                }
            }
            r = r + 1;
        }
        proof {
            assert forall|f: u64| #[trigger] frames@.contains(f) implies (vic_cond(f) || (exists|
                p0: int,
                r0: int,
            |
                0 <= p0 < p + 1 && 0 <= r0 < aggr_patterns@[p0]@.len() && (
                #[trigger] aggr_patterns@[p0]@[r0]).frames.contains(f))) by {
                if !vic_cond(f) {
                    if exists|p0: int, r0: int|
                        0 <= p0 < p && 0 <= r0 < aggr_patterns@[p0]@.len() && (
                        #[trigger] aggr_patterns@[p0]@[r0]).frames.contains(f) {
                    } else {
                        let r0 = choose|r0: int|
                            0 <= r0 < pat@.len() && (#[trigger] pat@[r0]).frames.contains(f);
                        assert(aggr_patterns@[p as int]@[r0].frames.contains(f));
                    }
                }
            }
            assert forall|f: u64|
                (vic_cond(f) || (exists|p0: int, r0: int|
                    0 <= p0 < p + 1 && 0 <= r0 < aggr_patterns@[p0]@.len() && (
                    #[trigger] aggr_patterns@[p0]@[r0]).frames.contains(
                        f,
                    ))) implies #[trigger] frames@.contains(f) by {
                if !vic_cond(f) && !frames@.contains(f) {
                    let (p0, r0) = choose|p0: int, r0: int|
                        0 <= p0 < p + 1 && 0 <= r0 < aggr_patterns@[p0]@.len() && (
                        #[trigger] aggr_patterns@[p0]@[r0]).frames.contains(f);
                    if p0 == p as int {
                        assert(pat@[r0].frames.contains(f));
                    }
                }
            }
        }
        p = p + 1;
    }
    frames
}

} // verus!
