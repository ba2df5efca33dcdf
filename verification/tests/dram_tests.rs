use rowhammer::dram::{
    create_config, dram_to_phys, phys_to_dram, popcount64, trailing_zeros64, validate_dram_config,
    DRAMAddr, DRAMConfig, DramLookupError,
};
use rowhammer::serialize::{DRAMInfo, MappingFunctions};

fn sample_config() -> DRAMConfig {
    DRAMConfig {
        dram_id: String::from("fictitious-dimm"),
        row_fn: 0x3FFFC0000,
        column_fn: 0x1FFF,
        bank_fns: vec![0x44000, 0x88000, 0x110000, 0x220000],
    }
}

#[test]
fn popcount_and_trailing_zeros() {
    assert_eq!(popcount64(0), 0);
    assert_eq!(popcount64(0xFF), 8);
    assert_eq!(popcount64(0x8000_0000_0000_0001), 2);
    assert_eq!(trailing_zeros64(1), 0);
    assert_eq!(trailing_zeros64(0x40000), 18);
    assert_eq!(trailing_zeros64(0x8000_0000_0000_0000), 63);
}

#[test]
fn sample_config_is_valid() {
    assert!(validate_dram_config(&sample_config()));
}

#[test]
fn invalid_configs_are_rejected() {
    let mut cfg = sample_config();
    cfg.row_fn = 0;
    assert!(!validate_dram_config(&cfg));

    let mut cfg = sample_config();
    cfg.bank_fns[0] = 0x45000; // three bits
    assert!(!validate_dram_config(&cfg));

    let mut cfg = sample_config();
    cfg.bank_fns[1] = 0x6000; // no bit overlaps the row or column mask
    assert!(!validate_dram_config(&cfg));

    let mut cfg = sample_config();
    cfg.column_fn = 0x1EFF; // gap in the column mask
    assert!(!validate_dram_config(&cfg));
}

#[test]
fn s1_phys_to_dram_values() {
    let cfg = sample_config();
    let p: u64 = 0x12345678;
    let d = phys_to_dram(p, &cfg);
    let mut expected_bank: u64 = 0;
    for (i, bank_fn) in cfg.bank_fns.iter().enumerate() {
        expected_bank |= (((p & bank_fn).count_ones() as u64) % 2) << i;
    }
    assert_eq!(d.bank, expected_bank);
    assert_eq!(d.row, (p & cfg.row_fn) >> cfg.row_fn.trailing_zeros());
    assert_eq!(d.column, p & cfg.column_fn);
}

#[test]
fn s1_round_trip() {
    let cfg = sample_config();
    let p: u64 = 0x12345678;
    let d = phys_to_dram(p, &cfg);
    assert_eq!(dram_to_phys(&d, &cfg), p);
}

#[test]
fn round_trip_more_addresses() {
    let cfg = sample_config();
    // every address whose bits lie under the masks must survive the trip
    for p in [0u64, 0x1FFF, 0x3C000, 0xA8000, 0x3FFFC0000, 0x3FFFF_FFFF & !0x2000] {
        let reachable = p & !(cfg.row_fn | cfg.column_fn | 0x3C000) == 0;
        if reachable {
            let d = phys_to_dram(p, &cfg);
            assert_eq!(dram_to_phys(&d, &cfg), p);
        }
    }
}

#[test]
fn dram_to_phys_places_coordinates() {
    let cfg = sample_config();
    let d = DRAMAddr { bank: 0, row: 5, column: 7 };
    let p = dram_to_phys(&d, &cfg);
    let back = phys_to_dram(p, &cfg);
    assert_eq!(back.bank, 0);
    assert_eq!(back.row, 5);
    assert_eq!(back.column, 7);
}

fn sample_info() -> DRAMInfo {
    DRAMInfo {
        dram_ids: vec![(String::from("SER-123"), String::from("dimm-a"))],
        mapping_functions: vec![(
            String::from("DDR4.1.1.2.16"),
            MappingFunctions {
                row_fn: 0x3FFFC0000,
                column_fn: 0x1FFF,
                bank_fns: vec![0x44000, 0x88000, 0x110000, 0x220000],
            },
        )],
    }
}

#[test]
fn create_config_known_serial() {
    let info = sample_info();
    let cfg = create_config(&info, &String::from("SER-123"), &String::from("DDR4"), 2, 16)
        .expect("lookup should succeed");
    assert_eq!(cfg.dram_id, "dimm-a");
    assert_eq!(cfg.row_fn, 0x3FFFC0000);
    assert_eq!(cfg.column_fn, 0x1FFF);
    assert_eq!(cfg.bank_fns, vec![0x44000, 0x88000, 0x110000, 0x220000]);
}

#[test]
fn create_config_unknown_serial_falls_back() {
    let info = sample_info();
    let cfg = create_config(&info, &String::from("OTHER"), &String::from("DDR4"), 2, 16)
        .expect("lookup should succeed");
    assert_eq!(cfg.dram_id, "OTHER");
}

#[test]
fn create_config_errors() {
    let info = sample_info();
    assert_eq!(
        create_config(&info, &String::from("SER-123"), &String::from("DDR4"), 2, 12).unwrap_err(),
        DramLookupError::BadBankCount
    );
    assert_eq!(
        create_config(&info, &String::from("SER-123"), &String::from("DDR4"), 3, 16).unwrap_err(),
        DramLookupError::BadRankCount
    );
    assert_eq!(
        create_config(&info, &String::from("SER-123"), &String::from("DDR3"), 2, 16).unwrap_err(),
        DramLookupError::UnknownMappingFunctions
    );
}
