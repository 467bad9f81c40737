use chrono::Datelike;
use ssd_tool::config::SnConfig;
use ssd_tool::error::SnError;
use ssd_tool::firmware_codec::FirmwareCodec;

fn default_config() -> SnConfig {
    let cfg = SnConfig::new().unwrap();
    cfg.validate().unwrap();
    cfg
}

#[test]
fn scenario_generate_and_parse_example() {
    let cfg = default_config();
    // 2025-12-01 is day offset 334 from the epoch 2025-01-01:
    // 334 = 0 * 1024 + 10 * 32 + 14, so the date code uses the alphabet
    // characters at positions 0, 10 and 14: "0AE"; 1024 MB maps to 'D'.
    let code = FirmwareCodec::generate_firmware_code(&cfg, 2025, 12, 1, 1, 1024, 'A', 4).unwrap();
    assert_eq!(code, "S0AE1DA4");
    let parsed = FirmwareCodec::parse_firmware_code(&cfg, &code).unwrap();
    assert_eq!(parsed, (2025, 12, 1, 1, 1024, 'A', 4));
}

#[test]
fn round_trip_dramless_and_max_chips() {
    let cfg = default_config();
    let code = FirmwareCodec::generate_firmware_code(&cfg, 2026, 2, 28, 3, -1, 'C', 16).unwrap();
    assert_eq!(code.len(), 8);
    assert_eq!(&code[..1], "S");
    assert_eq!(code.chars().nth(5).unwrap(), 'X');
    assert_eq!(code.chars().nth(7).unwrap(), 'G');
    let parsed = FirmwareCodec::parse_firmware_code(&cfg, &code).unwrap();
    assert_eq!(parsed, (2026, 2, 28, 3, -1, 'C', 16));
}

#[test]
fn date_offset_zero_is_smallest_code() {
    let cfg = default_config();
    assert_eq!(FirmwareCodec::date_to_code(&cfg, 2025, 1, 1).unwrap(), "000");
    assert_eq!(FirmwareCodec::code_to_date(&cfg, "000").unwrap(), (2025, 1, 1));
}

#[test]
fn date_offset_max_is_largest_code() {
    let cfg = default_config();
    let last = chrono::NaiveDate::from_ymd_opt(2025, 1, 1)
        .unwrap()
        .checked_add_days(chrono::Days::new(32767))
        .unwrap();
    let code =
        FirmwareCodec::date_to_code(&cfg, last.year(), last.month(), last.day()).unwrap();
    assert_eq!(code, "ZZZ");
    assert_eq!(
        FirmwareCodec::code_to_date(&cfg, "ZZZ").unwrap(),
        (last.year(), last.month(), last.day())
    );
}

#[test]
fn date_offset_negative_fails() {
    let cfg = default_config();
    let e = FirmwareCodec::date_to_code(&cfg, 2024, 12, 31).unwrap_err();
    assert!(matches!(e, SnError::DateCodeError(_)));
}

#[test]
fn date_offset_past_range_fails() {
    let cfg = default_config();
    let over = chrono::NaiveDate::from_ymd_opt(2025, 1, 1)
        .unwrap()
        .checked_add_days(chrono::Days::new(32768))
        .unwrap();
    let e = FirmwareCodec::date_to_code(&cfg, over.year(), over.month(), over.day()).unwrap_err();
    assert!(matches!(e, SnError::DateCodeError(_)));
}

#[test]
fn invalid_calendar_date_fails() {
    let cfg = default_config();
    let e = FirmwareCodec::date_to_code(&cfg, 2025, 2, 30).unwrap_err();
    match e {
        SnError::DateCodeError(msg) => assert_eq!(msg, "无效的目标日期"),
        other => panic!("unexpected error: {:?}", other),
    }
}

#[test]
fn date_code_wrong_length_fails() {
    let cfg = default_config();
    let e = FirmwareCodec::code_to_date(&cfg, "0A").unwrap_err();
    match e {
        SnError::DateCodeError(msg) => assert_eq!(msg, "日期编码必须是3位字符"),
        other => panic!("unexpected error: {:?}", other),
    }
}

#[test]
fn date_code_bad_character_fails() {
    let cfg = default_config();
    // 'I' is not in the alphabet (easily-confused letters are excluded).
    let e = FirmwareCodec::code_to_date(&cfg, "0I0").unwrap_err();
    match e {
        SnError::DateCodeError(msg) => assert_eq!(msg, "无效日期编码字符: I"),
        other => panic!("unexpected error: {:?}", other),
    }
}

#[test]
fn date_code_accepts_lowercase() {
    let cfg = default_config();
    assert_eq!(
        FirmwareCodec::code_to_date(&cfg, "0ae").unwrap(),
        FirmwareCodec::code_to_date(&cfg, "0AE").unwrap()
    );
}

#[test]
fn parse_accepts_lowercase_fields() {
    let cfg = default_config();
    let parsed = FirmwareCodec::parse_firmware_code(&cfg, "S0ae1da4").unwrap();
    // The package character is reported as written; everything else decodes
    // as in the uppercase code.
    assert_eq!(parsed, (2025, 12, 1, 1, 1024, 'a', 4));
}

#[test]
fn parse_rejects_lowercase_tag() {
    let cfg = default_config();
    let e = FirmwareCodec::parse_firmware_code(&cfg, "s0AE1DA4").unwrap_err();
    assert!(matches!(e, SnError::SnFormatError(_)));
}

#[test]
fn chip_count_boundaries() {
    assert_eq!(FirmwareCodec::chip_count_to_char(16).unwrap(), 'G');
    assert_eq!(FirmwareCodec::chip_count_to_char(1).unwrap(), '1');
    assert_eq!(FirmwareCodec::chip_count_to_char(9).unwrap(), '9');
    assert_eq!(FirmwareCodec::chip_count_to_char(10).unwrap(), 'A');
    assert_eq!(FirmwareCodec::chip_count_to_char(15).unwrap(), 'F');
    assert!(matches!(
        FirmwareCodec::chip_count_to_char(0),
        Err(SnError::InvalidParameter(_))
    ));
    assert!(matches!(
        FirmwareCodec::chip_count_to_char(17),
        Err(SnError::InvalidParameter(_))
    ));
}

#[test]
fn chip_count_decodes_both_cases() {
    assert_eq!(FirmwareCodec::char_to_chip_count('G').unwrap(), 16);
    assert_eq!(FirmwareCodec::char_to_chip_count('g').unwrap(), 16);
    assert_eq!(FirmwareCodec::char_to_chip_count('a').unwrap(), 10);
    assert_eq!(FirmwareCodec::char_to_chip_count('F').unwrap(), 15);
    assert_eq!(FirmwareCodec::char_to_chip_count('5').unwrap(), 5);
    assert!(matches!(
        FirmwareCodec::char_to_chip_count('0'),
        Err(SnError::InvalidParameter(_))
    ));
    assert!(matches!(
        FirmwareCodec::char_to_chip_count('H'),
        Err(SnError::InvalidParameter(_))
    ));
}

#[test]
fn memory_sentinel_encodes_to_reserved_char() {
    let cfg = default_config();
    assert_eq!(FirmwareCodec::dram_size_to_code(&cfg, -1).unwrap(), 'X');
    // Even with an empty table the sentinel keeps its reserved character.
    let mut bare = default_config();
    bare.dram_sizes = Vec::new();
    assert_eq!(FirmwareCodec::dram_size_to_code(&bare, -1).unwrap(), 'X');
}

#[test]
fn memory_sentinel_decodes_to_minus_one() {
    let cfg = default_config();
    assert_eq!(cfg.dram_lookup('X'), Some(-1));
    assert_eq!(cfg.dram_lookup('x'), Some(-1));
}

#[test]
fn dram_size_lookup_by_value() {
    let cfg = default_config();
    assert_eq!(FirmwareCodec::dram_size_to_code(&cfg, 1024).unwrap(), 'D');
    assert_eq!(FirmwareCodec::dram_size_to_code(&cfg, 128).unwrap(), 'A');
    let e = FirmwareCodec::dram_size_to_code(&cfg, 333).unwrap_err();
    match e {
        SnError::InvalidParameter(msg) => assert_eq!(msg, "不支持的DRAM大小"),
        other => panic!("unexpected error: {:?}", other),
    }
}

#[test]
fn generate_rejects_invalid_attributes() {
    let cfg = default_config();
    assert!(matches!(
        FirmwareCodec::generate_firmware_code(&cfg, 2025, 12, 1, 9, 1024, 'A', 4),
        Err(SnError::InvalidParameter(_))
    ));
    assert!(matches!(
        FirmwareCodec::generate_firmware_code(&cfg, 2025, 12, 1, 1, 1024, 'Z', 4),
        Err(SnError::InvalidParameter(_))
    ));
    assert!(matches!(
        FirmwareCodec::generate_firmware_code(&cfg, 2025, 12, 1, 1, 1024, 'A', 0),
        Err(SnError::InvalidParameter(_))
    ));
    assert!(matches!(
        FirmwareCodec::generate_firmware_code(&cfg, 2025, 12, 1, 1, 333, 'A', 4),
        Err(SnError::InvalidParameter(_))
    ));
}

#[test]
fn parse_empty_fails() {
    let cfg = default_config();
    assert!(matches!(
        FirmwareCodec::parse_firmware_code(&cfg, ""),
        Err(SnError::SnFormatError(_))
    ));
}

#[test]
fn parse_wrong_tag_fails() {
    let cfg = default_config();
    let e = FirmwareCodec::parse_firmware_code(&cfg, "T0000000").unwrap_err();
    match e {
        SnError::SnFormatError(msg) => assert_eq!(msg, "无效的固件版本号格式"),
        other => panic!("unexpected error: {:?}", other),
    }
}

#[test]
fn parse_wrong_length_fails() {
    let cfg = default_config();
    assert!(matches!(
        FirmwareCodec::parse_firmware_code(&cfg, "S0AE1DA"),
        Err(SnError::SnFormatError(_))
    ));
    assert!(matches!(
        FirmwareCodec::parse_firmware_code(&cfg, "S0AE1DA44"),
        Err(SnError::SnFormatError(_))
    ));
}

#[test]
fn parse_field_failures_report_the_field() {
    let cfg = default_config();
    match FirmwareCodec::parse_firmware_code(&cfg, "S0AEZDA4").unwrap_err() {
        SnError::SnFormatError(msg) => assert_eq!(msg, "无效的PCB尺寸代码"),
        other => panic!("unexpected error: {:?}", other),
    }
    match FirmwareCodec::parse_firmware_code(&cfg, "S0AE1QA4").unwrap_err() {
        SnError::SnFormatError(msg) => assert_eq!(msg, "无效的DRAM大小代码"),
        other => panic!("unexpected error: {:?}", other),
    }
    match FirmwareCodec::parse_firmware_code(&cfg, "S0AE1DZ4").unwrap_err() {
        SnError::SnFormatError(msg) => assert_eq!(msg, "无效的封装代码"),
        other => panic!("unexpected error: {:?}", other),
    }
    match FirmwareCodec::parse_firmware_code(&cfg, "S0AE1DAH").unwrap_err() {
        SnError::InvalidParameter(msg) => assert_eq!(msg, "无效的颗粒个数代码"),
        other => panic!("unexpected error: {:?}", other),
    }
    // '0' is a syntactically valid chip-count character class reject: the
    // shared decode routine refuses it before any range check.
    match FirmwareCodec::parse_firmware_code(&cfg, "S0AE1DA0").unwrap_err() {
        SnError::InvalidParameter(msg) => assert_eq!(msg, "无效的颗粒个数代码"),
        other => panic!("unexpected error: {:?}", other),
    }
}

#[test]
fn parse_chip_count_out_of_configured_range() {
    let mut cfg = default_config();
    cfg.chip_count.max = 8;
    // 'G' decodes to 16, which the configured range then rejects.
    match FirmwareCodec::parse_firmware_code(&cfg, "S0AE1DAG").unwrap_err() {
        SnError::SnFormatError(msg) => assert_eq!(msg, "无效的颗粒个数"),
        other => panic!("unexpected error: {:?}", other),
    }
}

#[test]
fn tiny_alphabet_boundaries() {
    let mut cfg = default_config();
    cfg.base32_chars = String::from("01");
    // Radix 2, width 3: representable offsets are 0..=7.
    assert_eq!(FirmwareCodec::date_to_code(&cfg, 2025, 1, 1).unwrap(), "000");
    assert_eq!(FirmwareCodec::date_to_code(&cfg, 2025, 1, 8).unwrap(), "111");
    assert_eq!(FirmwareCodec::date_to_code(&cfg, 2025, 1, 6).unwrap(), "101");
    assert!(matches!(
        FirmwareCodec::date_to_code(&cfg, 2025, 1, 9),
        Err(SnError::DateCodeError(_))
    ));
    assert_eq!(FirmwareCodec::code_to_date(&cfg, "101").unwrap(), (2025, 1, 6));
}

#[test]
fn get_base_date_checks_the_epoch() {
    let cfg = default_config();
    let b = FirmwareCodec::get_base_date(&cfg).unwrap();
    assert_eq!((b.year, b.month, b.day), (2025, 1, 1));
    let mut bad = default_config();
    bad.base_date.month = 13;
    assert!(matches!(
        FirmwareCodec::get_base_date(&bad),
        Err(SnError::DateCodeError(_))
    ));
}

#[test]
fn error_message_carries_kind_prefix() {
    let e = SnError::DateCodeError(String::from("日期超出范围"));
    assert_eq!(e.message(), "日期编码错误: 日期超出范围");
    let e = SnError::SnFormatError(String::from("x"));
    assert_eq!(e.message(), "SN码格式错误: x");
    let e = SnError::InvalidParameter(String::from("y"));
    assert_eq!(e.message(), "无效的参数: y");
    let e = SnError::ConfigError(String::from("z"));
    assert_eq!(e.message(), "配置错误: z");
}
