use std::collections::HashMap;
use rowhammer::allocation::PageAllocator;
use rowhammer::dram::{dram_to_phys, DRAMAddr, DRAMConfig};
use rowhammer::hammer::hammer_jit_code;
use rowhammer::placement::{page_index_of_offset, segment_page_count, AddressSpaceModel};
use rowhammer::prehammer::{HammerProgress, CONSECUTIVE_SUCCESSES, GIVE_UP_THESHOLD};
use rowhammer::serialize::{AggressorPattern, BitFlip, RowAndInitValue};
use rowhammer::templater::{
    filter_whole_setups, parse_hammer_pattern, template_frames_to_allocate, TemplateAccumulator,
    TemplaterConfig, TemplaterError, VicAggrInit,
};
use rowhammer::utils::get_frames_in_row;

#[test]
fn cpu_lists_parse_to_their_sets() {
    let cores = rowhammer::host::parse_sys_cpu_format("1,5-8").expect("well-formed");
    let expected: std::collections::HashSet<u32> = [1, 5, 6, 7].into_iter().collect();
    assert_eq!(cores, expected);
    assert!(rowhammer::host::parse_sys_cpu_format("").expect("empty list").is_empty());
    assert!(rowhammer::host::parse_sys_cpu_format("3-x").is_none());
    assert!(rowhammer::host::parse_sys_cpu_format("a").is_none());
}

#[test]
fn allocator_keeps_wanted_pages_only() {
    let mut alloc = PageAllocator::new(vec![0xA000, 0xB000]);
    assert!(!alloc.done(0));
    assert!(!alloc.offer(0xC000, 0x7000_0000));
    assert!(alloc.offer(0xA000, 0x7000_1000));
    assert!(!alloc.done(0));
    assert!(alloc.done(1));
    assert!(!alloc.offer(0xA000, 0x7000_2000)); // already captured
    assert!(alloc.offer(0xB000, 0x7000_3000));
    assert!(alloc.done(0));
    assert_eq!(alloc.remaining_count(), 0);
    assert_eq!(
        alloc.acquired_pages_ref().as_slice(),
        &[(0xA000, 0x7000_1000), (0xB000, 0x7000_3000)]
    );
}

#[test]
fn segment_sizing() {
    assert_eq!(segment_page_count(8192, 8192), Ok(2));
    assert_eq!(segment_page_count(8193, 8193), Ok(3));
    assert_eq!(segment_page_count(0, 0), Ok(0));
    assert!(segment_page_count(5, 6).is_err());
    assert_eq!(page_index_of_offset(0x3000, 0x1000), 2);
}

#[test]
fn remap_places_segment_and_evicts_blockers() {
    let f1 = 0x1111000u64;
    let f2 = 0x2222000u64;
    let f3 = 0x3333000u64;
    let mut model = AddressSpaceModel::new(vec![(f1, 0x1000), (f2, 0x2000), (f3, 0x7000)]);
    // place [f1, f2] contiguously at 0x2000; f2 already sits at 0x2000 and
    // must make way first
    let plan = model.remap_segment(&vec![f1, f2], 0x2000, &vec![0x100000, 0x101000]);
    let entries: HashMap<u64, u64> = model.entries_ref().iter().cloned().collect();
    assert_eq!(entries[&f1], 0x2000);
    assert_eq!(entries[&f2], 0x3000);
    assert_eq!(entries[&f3], 0x7000);
    // the plan first moves the blocker away, then places both pages
    assert_eq!(plan.len(), 3);
    assert_eq!(plan[0].frame, f2);
    assert_eq!(plan[0].new_va, 0x100000);
    assert_eq!(plan[1].frame, f1);
    assert_eq!(plan[1].new_va, 0x2000);
    assert_eq!(plan[2].frame, f2);
    assert_eq!(plan[2].new_va, 0x3000);
}

#[test]
fn hammer_code_layout() {
    let code = hammer_jit_code(&vec![0x1000, 0x2000], 1, 2);
    let prologue: [u8; 18] = [
        0x50, 0x53, 0x51, 0x52, 0x57, 0x56, 0x41, 0x52, 0x41, 0x53, 0x41, 0x54, 0x41, 0x55, 0x41,
        0x56, 0x41, 0x57,
    ];
    assert_eq!(&code[..18], &prologue);
    // one iteration: read each aggressor, flush each aggressor, one filler
    let mov_imm = |addr: u64| {
        let mut b = vec![0x49, 0xBC];
        b.extend_from_slice(&addr.to_le_bytes());
        b
    };
    let load = [0x49, 0x8B, 0x14, 0x24];
    let flush = [0x41, 0x0F, 0xAE, 0x3C, 0x24];
    let filler = [0x48, 0x83, 0xC0, 0x01];
    let mut iter: Vec<u8> = Vec::new();
    for addr in [0x1000u64, 0x2000] {
        iter.extend(mov_imm(addr));
        iter.extend_from_slice(&load);
    }
    for addr in [0x1000u64, 0x2000] {
        iter.extend(mov_imm(addr));
        iter.extend_from_slice(&flush);
    }
    iter.extend_from_slice(&filler);
    assert_eq!(iter.len(), 62);
    assert_eq!(&code[18..80], iter.as_slice());
    assert_eq!(&code[80..142], iter.as_slice());
    // epilogue and return
    assert_eq!(code[code.len() - 1], 0xC3);
    assert_eq!(code.len(), 18 + 2 * 62 + 18 + 1);
}

#[test]
fn hammer_code_covers_every_aggressor() {
    // three aggressors: each one is read and flushed in every iteration
    let code = hammer_jit_code(&vec![0x10, 0x20, 0x30], 0, 1);
    assert_eq!(code.len(), 18 + 3 * 14 + 3 * 15 + 18 + 1);
    for (i, addr) in [0x10u64, 0x20, 0x30].iter().enumerate() {
        let read_at = 18 + i * 14;
        assert_eq!(&code[read_at..read_at + 2], &[0x49, 0xBC]);
        assert_eq!(&code[read_at + 2..read_at + 10], &addr.to_le_bytes());
        assert_eq!(&code[read_at + 10..read_at + 14], &[0x49, 0x8B, 0x14, 0x24]);
        let flush_at = 18 + 3 * 14 + i * 15;
        assert_eq!(&code[flush_at..flush_at + 2], &[0x49, 0xBC]);
        assert_eq!(&code[flush_at + 2..flush_at + 10], &addr.to_le_bytes());
        assert_eq!(&code[flush_at + 10..flush_at + 15], &[0x41, 0x0F, 0xAE, 0x3C, 0x24]);
    }
}

#[test]
fn hammer_code_scales_with_counts() {
    let code = hammer_jit_code(&vec![0, 0], 40, 100);
    assert_eq!(code.len(), 18 + 100 * (2 * 14 + 2 * 15 + 40 * 4) + 18 + 1);
}

#[test]
fn prehammer_stops_after_stable_streak() {
    let mut p = HammerProgress::new();
    let mut rounds = 0;
    while p.should_continue() {
        p.record(true);
        rounds += 1;
    }
    assert_eq!(rounds, CONSECUTIVE_SUCCESSES);
    assert!(!p.gave_up());
}

#[test]
fn prehammer_gives_up_without_successes() {
    let mut p = HammerProgress::new();
    let mut rounds = 0;
    while p.should_continue() {
        p.record(false);
        rounds += 1;
    }
    assert_eq!(rounds, GIVE_UP_THESHOLD);
    assert!(p.gave_up());
}

#[test]
fn prehammer_streak_restarts_after_failure() {
    let mut p = HammerProgress::new();
    p.record(true);
    p.record(true);
    p.record(false);
    assert_eq!(p.consecutive_successes, 1);
    assert_eq!(p.iteration, 3);
    assert!(p.should_continue());
}

fn sweep_config(pattern: &str, row_start: u64, row_end: u64) -> TemplaterConfig {
    TemplaterConfig {
        row_start,
        row_end,
        bank_idxs: vec![0],
        hammer_count: 1000,
        garbage_count_start: 0,
        garbage_count_end: 1,
        init_values: vec![VicAggrInit { victim_init: 0x00, aggr_init: 0xFF }],
        repetition: 2,
        pattern: String::from(pattern),
    }
}

fn sample_dram() -> DRAMConfig {
    DRAMConfig {
        dram_id: String::from("fictitious-dimm"),
        row_fn: 0x3FFFC0000,
        column_fn: 0x1FFF,
        bank_fns: vec![0x44000, 0x88000, 0x110000, 0x220000],
    }
}

#[test]
fn sweep_stamps_double_sided_setups() {
    let dram = sample_dram();
    let (frames, setups) =
        parse_hammer_pattern(&sweep_config("AVA", 2, 5), &dram).expect("valid sweep");
    assert_eq!(setups.len(), 1); // one start row (2), one bank, one init pair
    let setup = &setups[0];
    assert_eq!(setup.victim_rows.len(), 1);
    assert_eq!(setup.aggr_pattern.pattern.len(), 2);
    let row_addr = |row: u64| dram_to_phys(&DRAMAddr { bank: 0, row, column: 0 }, &dram);
    assert_eq!(setup.aggr_pattern.pattern[0].frames, get_frames_in_row(row_addr(2)));
    assert_eq!(setup.victim_rows[0].frames, get_frames_in_row(row_addr(3)));
    assert_eq!(setup.aggr_pattern.pattern[1].frames, get_frames_in_row(row_addr(4)));
    assert_eq!(setup.victim_rows[0].init, 0x00);
    assert_eq!(setup.aggr_pattern.pattern[0].init, 0xFF);
    // the target frames cover exactly the three rows, without duplicates
    let mut expected: Vec<u64> = Vec::new();
    for row in 2..5 {
        expected.extend(get_frames_in_row(row_addr(row)));
    }
    expected.sort();
    expected.dedup();
    let mut got = frames.clone();
    got.sort();
    assert_eq!(got, expected);
}

#[test]
fn sweep_rejects_bad_configs() {
    let dram = sample_dram();
    assert_eq!(
        parse_hammer_pattern(&sweep_config("", 2, 5), &dram).unwrap_err(),
        TemplaterError::EmptyPattern
    );
    assert_eq!(
        parse_hammer_pattern(&sweep_config("AVA", 0, 1), &dram).unwrap_err(),
        TemplaterError::RowRangeTooSmall
    );
    assert_eq!(
        parse_hammer_pattern(&sweep_config("AXA", 2, 5), &dram).unwrap_err(),
        TemplaterError::UnknownPatternChar
    );
}

#[test]
fn incomplete_setups_are_filtered_out() {
    let dram = sample_dram();
    let (frames, setups) =
        parse_hammer_pattern(&sweep_config("AVA", 2, 6), &dram).expect("valid sweep");
    assert_eq!(setups.len(), 2);
    // hold every frame of the first setup only
    let mut frame2map: HashMap<u64, u64> = HashMap::new();
    for f in setups[0].iter_all_frames() {
        frame2map.insert(f, 0x7000_0000 + f);
    }
    let missing_frames = setups[1].iter_all_frames();
    let (kept, discarded) = filter_whole_setups(setups, &frame2map);
    assert_eq!(kept.len(), 1);
    assert_eq!(discarded.len(), 1);
    assert!(discarded[0].iter_all_frames().iter().any(|f| !frame2map.contains_key(f)));
    assert_eq!(discarded[0].iter_all_frames(), missing_frames);
    assert!(frames.len() >= missing_frames.len());
}

#[test]
fn accumulator_interns_patterns_and_victims() {
    let mut acc = TemplateAccumulator::new(2);
    let pattern = AggressorPattern {
        pattern: vec![
            RowAndInitValue { frames: get_frames_in_row(0xA8000), init: 0xFF },
            RowAndInitValue { frames: get_frames_in_row(0xAC000), init: 0xFF },
        ],
    };
    let flip = BitFlip { flip_index: 3, flip_direction: true };
    acc.record_flip(0xAA010, flip, &pattern, 40, 0);
    assert_eq!(acc.aggr_patterns.len(), 1);
    assert_eq!(acc.victims, vec![(0xAA010, flip, 0)]);
    assert_eq!(acc.distribution.len(), 1);
    assert_eq!(acc.distribution[0].0, 40);
    assert_eq!(acc.distribution[0].1, vec![vec![0], vec![]]);

    // the same discovery again: nothing new is interned, one more occurrence
    acc.record_flip(0xAA010, flip, &pattern, 40, 0);
    assert_eq!(acc.aggr_patterns.len(), 1);
    assert_eq!(acc.victims.len(), 1);
    assert_eq!(acc.distribution[0].1, vec![vec![0, 0], vec![]]);

    // a different bit in another round: a second victim entry
    let other = BitFlip { flip_index: 5, flip_direction: false };
    acc.record_flip(0xAA010, other, &pattern, 40, 1);
    assert_eq!(acc.victims.len(), 2);
    assert_eq!(acc.distribution[0].1, vec![vec![0, 0], vec![1]]);

    // a new filler count opens its own bucket
    acc.record_flip(0xAA010, flip, &pattern, 80, 1);
    assert_eq!(acc.distribution.len(), 2);
    assert_eq!(acc.distribution[1].0, 80);
    assert_eq!(acc.distribution[1].1, vec![vec![], vec![0]]);
}

#[test]
fn template_replay_targets_every_frame_once() {
    let flip = BitFlip { flip_index: 3, flip_direction: true };
    let victims = vec![(0xAA010u64, flip, 0usize), (0xAA020u64, flip, 0usize)];
    let patterns = vec![AggressorPattern {
        pattern: vec![
            RowAndInitValue { frames: get_frames_in_row(0xA8000), init: 0xFF },
            RowAndInitValue { frames: get_frames_in_row(0xAC000), init: 0xFF },
        ],
    }];
    let mut frames = template_frames_to_allocate(&victims, &patterns);
    frames.sort();
    assert_eq!(frames, vec![0xA8000, 0xA9000, 0xAA000, 0xAC000, 0xAD000]);
}
