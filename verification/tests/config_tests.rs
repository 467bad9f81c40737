use ssd_tool::config::SnConfig;
use ssd_tool::error::SnError;

fn default_config() -> SnConfig {
    SnConfig::new().unwrap()
}

#[test]
fn default_config_validates() {
    let cfg = default_config();
    assert!(cfg.validate().is_ok());
    assert_eq!(cfg.base_date.year, 2025);
    assert_eq!(cfg.base_date.month, 1);
    assert_eq!(cfg.base_date.day, 1);
    assert_eq!(cfg.base32_chars, "0123456789ABCDEFGHJKMNPQRSTVWXYZ");
    assert_eq!(cfg.chip_count.min, 1);
    assert_eq!(cfg.chip_count.max, 16);
}

#[test]
fn validate_reports_first_empty_table() {
    let mut cfg = default_config();
    cfg.base32_chars = String::new();
    match cfg.validate().unwrap_err() {
        SnError::ConfigError(msg) => assert_eq!(msg, "Base32字符集不能为空"),
        other => panic!("unexpected error: {:?}", other),
    }
    let mut cfg = default_config();
    cfg.pcb_sizes = Vec::new();
    match cfg.validate().unwrap_err() {
        SnError::ConfigError(msg) => assert_eq!(msg, "PCB尺寸定义不能为空"),
        other => panic!("unexpected error: {:?}", other),
    }
    let mut cfg = default_config();
    cfg.dram_sizes = Vec::new();
    match cfg.validate().unwrap_err() {
        SnError::ConfigError(msg) => assert_eq!(msg, "DRAM大小定义不能为空"),
        other => panic!("unexpected error: {:?}", other),
    }
    let mut cfg = default_config();
    cfg.packages = Vec::new();
    match cfg.validate().unwrap_err() {
        SnError::ConfigError(msg) => assert_eq!(msg, "封装定义不能为空"),
        other => panic!("unexpected error: {:?}", other),
    }
}

#[test]
fn validate_rejects_inverted_chip_range() {
    let mut cfg = default_config();
    cfg.chip_count.min = 9;
    cfg.chip_count.max = 2;
    match cfg.validate().unwrap_err() {
        SnError::ConfigError(msg) => assert_eq!(msg, "颗粒数量范围无效"),
        other => panic!("unexpected error: {:?}", other),
    }
}

#[test]
fn validity_checks_match_the_tables() {
    let cfg = default_config();
    assert!(cfg.is_valid_pcb_size(1));
    assert!(cfg.is_valid_pcb_size(4));
    assert!(!cfg.is_valid_pcb_size(0));
    assert!(!cfg.is_valid_pcb_size(9));
    assert!(cfg.is_valid_dram_code('D'));
    assert!(cfg.is_valid_dram_code('d'));
    assert!(cfg.is_valid_dram_code('X'));
    assert!(!cfg.is_valid_dram_code('Q'));
    assert!(cfg.is_valid_package('A'));
    assert!(cfg.is_valid_package('a'));
    assert!(!cfg.is_valid_package('Z'));
    assert!(cfg.is_valid_chip_count(1));
    assert!(cfg.is_valid_chip_count(16));
    assert!(!cfg.is_valid_chip_count(0));
    assert!(!cfg.is_valid_chip_count(17));
}

#[test]
fn pcb_size_names() {
    let cfg = default_config();
    assert_eq!(cfg.get_pcb_size_name(1), "2280");
    assert_eq!(cfg.get_pcb_size_name(4), "22110");
    assert_eq!(cfg.get_pcb_size_name(7), "未知尺寸");
}

#[test]
fn dram_size_descriptions() {
    let cfg = default_config();
    assert_eq!(cfg.get_dram_size_desc('X'), "DRAMLess");
    assert_eq!(cfg.get_dram_size_desc('x'), "DRAMLess");
    assert_eq!(cfg.get_dram_size_desc('A'), "128MB");
    assert_eq!(cfg.get_dram_size_desc('C'), "512MB");
    assert_eq!(cfg.get_dram_size_desc('D'), "1GB");
    assert_eq!(cfg.get_dram_size_desc('e'), "2GB");
    assert_eq!(cfg.get_dram_size_desc('Q'), "未知大小");
}

#[test]
fn package_names() {
    let cfg = default_config();
    assert_eq!(cfg.get_package_name('A'), "BGA316");
    assert_eq!(cfg.get_package_name('c'), "TSOP48");
    assert_eq!(cfg.get_package_name('Z'), "未知封装");
}

#[test]
fn config_info_text() {
    let cfg = default_config();
    assert_eq!(
        cfg.get_config_info(),
        "配置信息:\n  基准日期: 2025-1-1\n  PCB尺寸: 4 种\n  DRAM大小: 8 种\n  封装类型: 3 种\n  颗粒数量范围: 1 - 16 (1-F/G)\n  SN码格式: S + 日期编码(3) + PCB尺寸(1) + DRAM大小(1) + 封装(1) + 颗粒数(1)"
    );
}

#[test]
fn calendar_validity() {
    assert!(ssd_tool::calendar::is_valid_civil_date(2024, 2, 29));
    assert!(!ssd_tool::calendar::is_valid_civil_date(2025, 2, 29));
    assert!(ssd_tool::calendar::is_valid_civil_date(2000, 2, 29));
    assert!(!ssd_tool::calendar::is_valid_civil_date(1900, 2, 29));
    assert!(!ssd_tool::calendar::is_valid_civil_date(2025, 4, 31));
    assert!(!ssd_tool::calendar::is_valid_civil_date(2025, 0, 1));
    assert!(!ssd_tool::calendar::is_valid_civil_date(2025, 1, 0));
    assert!(!ssd_tool::calendar::is_valid_civil_date(262143, 1, 1));
    assert!(ssd_tool::calendar::is_valid_civil_date(262142, 12, 31));
}
