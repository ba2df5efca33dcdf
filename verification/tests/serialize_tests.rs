use std::collections::HashMap;
use rowhammer::serialize::{
    victim_from_text, victim_to_text, AggressorPattern, AttackConfig, AttackConfigError, BitFlip,
    RowAndInitValue, VictimBit, VictimFrame,
};
use rowhammer::text::{parse_dec_u64, parse_hex_u64, u64_to_dec, u64_to_hex};
use rowhammer::utils::get_frames_in_row;

#[test]
fn s5_bitflip_parse_and_format() {
    let b = BitFlip::parse_text("3+").expect("well-formed");
    assert_eq!(b.flip_index, 3);
    assert!(b.flip_direction);
    assert_eq!(b.to_text(), "3+");

    let b = BitFlip::parse_text("5-").expect("well-formed");
    assert_eq!(b.flip_index, 5);
    assert!(!b.flip_direction);
    assert_eq!(b.to_text(), "5-");
}

#[test]
fn bitflip_rejects_malformed_text() {
    assert!(BitFlip::parse_text("").is_none());
    assert!(BitFlip::parse_text("3").is_none());
    assert!(BitFlip::parse_text("12+").is_none());
    assert!(BitFlip::parse_text("x+").is_none());
    assert!(BitFlip::parse_text("3x").is_none());
    // a byte has bits 0 to 7 only
    assert!(BitFlip::parse_text("8+").is_none());
    assert!(BitFlip::parse_text("9-").is_none());
}

#[test]
fn number_text_round_trips() {
    assert_eq!(u64_to_hex(0x12345678), "12345678");
    assert_eq!(u64_to_hex(0), "0");
    assert_eq!(u64_to_dec(90210), "90210");
    assert_eq!(parse_hex_u64("aB3"), Some(0xAB3));
    assert_eq!(parse_hex_u64(&u64_to_hex(0xAA000)), Some(0xAA000));
    assert_eq!(parse_dec_u64(&u64_to_dec(12345)), Some(12345));
    assert_eq!(parse_hex_u64(""), None);
    assert_eq!(parse_hex_u64("12g4"), None);
    assert_eq!(parse_dec_u64("99999999999999999999999"), None);
}

fn row(addr: u64, init: u8) -> RowAndInitValue {
    RowAndInitValue { frames: get_frames_in_row(addr), init }
}

fn victim(frame_addr: u64, offset: u64, flip: BitFlip, key: &str, file_off: Option<u64>) -> VictimFrame {
    VictimFrame {
        page_file_offset: file_off,
        frame_addr,
        victim_bits: vec![VictimBit {
            offset,
            bitflip: flip,
            aggr_pattern_key: String::from(key),
        }],
    }
}

fn s2_config() -> AttackConfig {
    let pattern = AggressorPattern { pattern: vec![row(0xA8000, 0xFF), row(0xAC000, 0xFF)] };
    AttackConfig::new(
        1_000_000,
        0x40000000,
        vec![victim(
            0xAA000,
            0x10,
            BitFlip { flip_index: 3, flip_direction: true },
            "p",
            Some(0),
        )],
        vec![(String::from("p"), pattern)],
    )
}

#[test]
fn s2_validate_and_aggr_frames() {
    let cfg = s2_config().validate().expect("disjoint config validates");
    let mut frames = cfg.iter_aggr_frames();
    frames.sort();
    assert_eq!(frames, vec![0xA8000, 0xA9000, 0xAC000, 0xAD000]);
}

#[test]
fn s3_overlap_is_rejected_naming_the_row() {
    let pattern = AggressorPattern {
        pattern: vec![row(0xA8000, 0xFF), row(0xAC000, 0xFF), row(0xAA000, 0xFF)],
    };
    let cfg = AttackConfig::new(
        1_000_000,
        0x40000000,
        vec![victim(
            0xAA000,
            0x10,
            BitFlip { flip_index: 3, flip_direction: true },
            "p",
            Some(0),
        )],
        vec![(String::from("p"), pattern)],
    );
    match cfg.validate() {
        Err(AttackConfigError::RowOverlap { frames }) => {
            assert!(frames.contains(&0xAA000));
            assert!(frames.contains(&0xAB000));
        },
        other => panic!("expected a row overlap, got {:?}", other.map(|_| ())),
    }
}

#[test]
fn s4_conflicting_init_values_are_rejected() {
    let p1 = AggressorPattern { pattern: vec![row(0xA8000, 0xFF), row(0xAC000, 0xFF)] };
    let p2 = AggressorPattern { pattern: vec![row(0xA8000, 0x00), row(0xB0000, 0x00)] };
    let cfg = AttackConfig::new(
        1_000_000,
        0x40000000,
        vec![],
        vec![(String::from("p1"), p1), (String::from("p2"), p2)],
    );
    match cfg.validate() {
        Err(AttackConfigError::ConflictingInitValues { rows }) => {
            assert_eq!(rows, vec![0xA8000]);
        },
        other => panic!("expected conflicting inits, got {:?}", other.map(|_| ())),
    }
}

#[test]
fn validate_rejects_missing_file_offset() {
    let pattern = AggressorPattern { pattern: vec![row(0xA8000, 0xFF)] };
    let cfg = AttackConfig::new(
        1,
        0x40000000,
        vec![victim(0xAA000, 0, BitFlip { flip_index: 0, flip_direction: true }, "p", None)],
        vec![(String::from("p"), pattern)],
    );
    assert!(matches!(cfg.validate(), Err(AttackConfigError::MissingPageFileOffset)));
}

#[test]
fn validate_rejects_duplicate_file_offsets() {
    let pattern = AggressorPattern { pattern: vec![row(0xA8000, 0xFF)] };
    let flip = BitFlip { flip_index: 0, flip_direction: true };
    let cfg = AttackConfig::new(
        1,
        0x40000000,
        vec![
            victim(0xAA000, 0, flip, "p", Some(0x1000)),
            victim(0xB0000, 0, flip, "p", Some(0x1234)),
        ],
        vec![(String::from("p"), pattern)],
    );
    match cfg.validate() {
        Err(AttackConfigError::DuplicatePageFileOffset { offset }) => {
            assert_eq!(offset, 0x1000);
        },
        other => panic!("expected duplicate offset, got {:?}", other.map(|_| ())),
    }
}

#[test]
fn validate_rejects_duplicate_patterns() {
    let p1 = AggressorPattern { pattern: vec![row(0xA8000, 0xFF)] };
    let p2 = AggressorPattern { pattern: vec![row(0xA8000, 0xFF)] };
    let cfg = AttackConfig::new(
        1,
        0x40000000,
        vec![],
        vec![(String::from("p1"), p1), (String::from("p2"), p2)],
    );
    assert!(matches!(cfg.validate(), Err(AttackConfigError::DuplicateAggressorPattern)));
}

#[test]
fn validate_rejects_empty_rows() {
    let p1 = AggressorPattern { pattern: vec![RowAndInitValue { frames: vec![], init: 0 }] };
    let cfg = AttackConfig::new(1, 0x40000000, vec![], vec![(String::from("p1"), p1)]);
    assert!(matches!(cfg.validate(), Err(AttackConfigError::EmptyAggressorRow)));
}

#[test]
fn aggr_patterns_per_victim_follow_the_keys() {
    let cfg = s2_config();
    let pats = cfg.iter_aggr_patterns_per_victim();
    assert_eq!(pats.len(), 1);
    assert_eq!(pats[0].pattern.len(), 2);
    assert_eq!(pats[0].pattern[0].frames[0], 0xA8000);
}

#[test]
fn aggr_rows_to_virt_looks_up_the_aliases() {
    let pattern = AggressorPattern { pattern: vec![row(0xA8000, 0xFF), row(0xAC000, 0xFF)] };
    let mut frame2map: HashMap<u64, u64> = HashMap::new();
    frame2map.insert(0xA8000, 0x7000_0000);
    frame2map.insert(0xA9000, 0x7000_1000);
    frame2map.insert(0xAC000, 0x7000_2000);
    frame2map.insert(0xAD000, 0x7000_3000);
    let virts = pattern.aggr_rows_to_virt(&frame2map);
    assert_eq!(virts, vec![0x7000_0000, 0x7000_2000]);
}

#[test]
fn pattern_serialises_to_comma_separated_tokens() {
    let pattern = AggressorPattern { pattern: vec![row(0xA8000, 0xFF), row(0xAC000, 0xFF)] };
    assert_eq!(pattern.to_text(), "0xa8000(0xff),0xac000(0xff)");
}

#[test]
fn victim_serialises_to_its_token() {
    let flip = BitFlip { flip_index: 3, flip_direction: true };
    assert_eq!(victim_to_text(0xAA010, &flip, 7), "0xaa010 3+ 7");
}

#[test]
fn pattern_text_round_trips() {
    let pattern = AggressorPattern { pattern: vec![row(0xA8000, 0xFF), row(0xAC000, 0xFF)] };
    let parsed = AggressorPattern::parse_text(&pattern.to_text()).expect("well-formed");
    assert_eq!(parsed.pattern.len(), 2);
    assert_eq!(parsed.pattern[0].frames, get_frames_in_row(0xA8000));
    assert_eq!(parsed.pattern[0].init, 0xFF);
    assert_eq!(parsed.pattern[1].frames, get_frames_in_row(0xAC000));
    assert_eq!(parsed.to_text(), pattern.to_text());
}

#[test]
fn pattern_parse_accepts_case_and_rejects_junk() {
    let p = AggressorPattern::parse_text("0xA8000(0xFF)").expect("well-formed");
    assert_eq!(p.pattern[0].frames[0], 0xA8000);
    assert_eq!(p.pattern[0].init, 0xFF);
    assert!(AggressorPattern::parse_text("").is_none());
    assert!(AggressorPattern::parse_text("0xa8000").is_none());
    assert!(AggressorPattern::parse_text("0xa8000(0x100)").is_none()); // init over a byte
    assert!(AggressorPattern::parse_text("a8000(0xff)").is_none()); // missing 0x
    assert!(AggressorPattern::parse_text("0xa8000(0xff),").is_none()); // empty tail token
}

#[test]
fn victim_text_round_trips() {
    let flip = BitFlip { flip_index: 3, flip_direction: true };
    let text = victim_to_text(0xAA010, &flip, 7);
    assert_eq!(victim_from_text(&text), Some((0xAA010, flip, 7)));
    assert!(victim_from_text("0xaa010 3+").is_none());
    assert!(victim_from_text("aa010 3+ 7").is_none());
    assert!(victim_from_text("0xaa010 9x 7").is_none());
}

#[test]
fn frames_in_row_covers_the_row() {
    assert_eq!(get_frames_in_row(0xA8000), vec![0xA8000, 0xA9000]);
    assert_eq!(get_frames_in_row(0xA9FFF), vec![0xA8000, 0xA9000]);
}
