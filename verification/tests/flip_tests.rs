use std::collections::HashMap;
use rowhammer::flip_checks::{check_row_for_flips, check_victim_flips, classify_byte, BitOutcome};
use rowhammer::mem_init::{apply_bitflip, victim_init_byte};
use rowhammer::proc::{pagemap_entry_of_bytes, pagemap_entry_to_phys, PagemapError};
use rowhammer::serialize::{BitFlip, VictimBit, VictimFrame};

fn one_bit_victim(frame_addr: u64, offset: u64, flip: BitFlip) -> Vec<VictimFrame> {
    vec![VictimFrame {
        page_file_offset: None,
        frame_addr,
        victim_bits: vec![VictimBit { offset, bitflip: flip, aggr_pattern_key: String::from("p") }],
    }]
}

fn byte_map(addr: u64, value: u8) -> HashMap<u64, u8> {
    let mut m = HashMap::new();
    m.insert(addr, value);
    m
}

#[test]
fn s6_expected_flip_passes() {
    let victims = one_bit_victim(0xAA000, 0x10, BitFlip { flip_index: 3, flip_direction: true });
    let before = byte_map(0xAA010, 0x00);
    let after = byte_map(0xAA010, 0x08);
    assert!(check_victim_flips(&victims, &before, &after));
}

#[test]
fn s6_missing_flip_fails() {
    let victims = one_bit_victim(0xAA000, 0x10, BitFlip { flip_index: 3, flip_direction: true });
    let before = byte_map(0xAA010, 0x00);
    let after = byte_map(0xAA010, 0x00);
    assert!(!check_victim_flips(&victims, &before, &after));
}

#[test]
fn s6_wrong_bit_fails() {
    let victims = one_bit_victim(0xAA000, 0x10, BitFlip { flip_index: 3, flip_direction: true });
    let before = byte_map(0xAA010, 0x00);
    let after = byte_map(0xAA010, 0x04);
    assert!(!check_victim_flips(&victims, &before, &after));
}

#[test]
fn extra_flip_in_declared_byte_fails() {
    let victims = one_bit_victim(0xAA000, 0x10, BitFlip { flip_index: 3, flip_direction: true });
    let before = byte_map(0xAA010, 0x00);
    let after = byte_map(0xAA010, 0x09); // bit 3 flipped as declared, bit 0 on top
    assert!(!check_victim_flips(&victims, &before, &after));
}

#[test]
fn wrong_direction_fails() {
    let victims = one_bit_victim(0xAA000, 0x10, BitFlip { flip_index: 3, flip_direction: false });
    let before = byte_map(0xAA010, 0x00);
    let after = byte_map(0xAA010, 0x08);
    assert!(!check_victim_flips(&victims, &before, &after));
}

#[test]
fn snapshot_as_baseline_reports_unchanged() {
    // the snapshot fed straight back: nothing is observed as flipped, so the
    // check holds exactly when nothing was declared
    let no_bits = vec![VictimFrame {
        page_file_offset: None,
        frame_addr: 0xAA000,
        victim_bits: vec![],
    }];
    let snap = byte_map(0xAA010, 0x5A);
    assert!(check_victim_flips(&no_bits, &snap, &snap));

    let declared = one_bit_victim(0xAA000, 0x10, BitFlip { flip_index: 1, flip_direction: true });
    assert!(!check_victim_flips(&declared, &snap, &snap));
}

#[test]
fn row_scan_finds_each_flipped_bit() {
    let mut row = vec![0xFFu8; 8192];
    row[5] = 0xFD; // bit 1 fell to zero
    row[8191] = 0x7F; // bit 7 fell to zero
    let flips = check_row_for_flips(&row, 0xA8000, 0xFF);
    assert_eq!(
        flips,
        vec![
            (0xA8005, BitFlip { flip_index: 1, flip_direction: false }),
            (0xA9FFF, BitFlip { flip_index: 7, flip_direction: false }),
        ]
    );
}

#[test]
fn row_scan_reports_rises_and_direction() {
    let mut row = vec![0x00u8; 8192];
    row[0] = 0x09; // bits 0 and 3 rose
    let flips = check_row_for_flips(&row, 0xA9123, 0x00);
    assert_eq!(
        flips,
        vec![
            (0xA8000, BitFlip { flip_index: 0, flip_direction: true }),
            (0xA8000, BitFlip { flip_index: 3, flip_direction: true }),
        ]
    );
}

#[test]
fn clean_row_has_no_flips() {
    let row = vec![0xAAu8; 8192];
    assert!(check_row_for_flips(&row, 0xA8000, 0xAA).is_empty());
}

#[test]
fn per_bit_classification_names_each_outcome() {
    let bits = vec![VictimBit {
        offset: 0x10,
        bitflip: BitFlip { flip_index: 3, flip_direction: true },
        aggr_pattern_key: String::from("p"),
    }];

    // the declared flip happened: bit 3 as expected, the rest untouched
    let outcomes = classify_byte(&bits, 0x10, 0x00, 0x08);
    assert_eq!(outcomes[3], BitOutcome::FlippedAsExpected);
    for i in [0usize, 1, 2, 4, 5, 6, 7] {
        assert_eq!(outcomes[i], BitOutcome::Unchanged);
    }

    // nothing flipped: the declared bit is missing
    let outcomes = classify_byte(&bits, 0x10, 0x00, 0x00);
    assert_eq!(outcomes[3], BitOutcome::MissingFlip);

    // the wrong bit flipped: bit 3 missing, bit 2 unexpected
    let outcomes = classify_byte(&bits, 0x10, 0x00, 0x04);
    assert_eq!(outcomes[3], BitOutcome::MissingFlip);
    assert_eq!(outcomes[2], BitOutcome::UnexpectedFlip);

    // the declared bit moved against its declared direction
    let down = vec![VictimBit {
        offset: 0x10,
        bitflip: BitFlip { flip_index: 3, flip_direction: false },
        aggr_pattern_key: String::from("p"),
    }];
    let outcomes = classify_byte(&down, 0x10, 0x00, 0x08);
    assert_eq!(outcomes[3], BitOutcome::WrongDirection);
}

#[test]
fn victim_init_prepares_the_flip() {
    let up = BitFlip { flip_index: 3, flip_direction: true };
    let down = BitFlip { flip_index: 3, flip_direction: false };
    // a rising flip starts from zero, a falling flip from one
    assert_eq!(victim_init_byte(0xFF, &up), 0xF7);
    assert_eq!(victim_init_byte(0x00, &down), 0x08);
    // applying the flip afterwards restores or sets the bit
    assert_eq!(apply_bitflip(0xF7, &up), 0xFF);
    assert_eq!(apply_bitflip(0x08, &down), 0x00);
}

#[test]
fn pagemap_entry_decoding() {
    let entry = (1u64 << 63) | 0x1234;
    assert_eq!(pagemap_entry_to_phys(entry, 0xABC), Ok((0x1234 << 12) | 0xABC));
    assert_eq!(pagemap_entry_to_phys(0x1234, 0xABC), Err(PagemapError::PageNotPresent));
    let swapped = (1u64 << 63) | (1u64 << 62) | 0x1234;
    assert_eq!(pagemap_entry_to_phys(swapped, 0xABC), Err(PagemapError::PageSwapped));
}

#[test]
fn pagemap_entry_bytes_are_little_endian() {
    let buf: [u8; 8] = [0x88, 0x77, 0, 0, 0, 0, 0, 0];
    assert_eq!(pagemap_entry_of_bytes(&buf), 0x7788);
}
