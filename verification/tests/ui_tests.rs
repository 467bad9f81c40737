use ssd_tool::ui::SsdToolApp;

#[test]
fn defaults_generate_the_example_code() {
    let mut app = SsdToolApp::new();
    assert_eq!(app.firmware_generate.year, "2025");
    assert_eq!(app.firmware_generate.month, "12");
    assert_eq!(app.firmware_generate.day, "1");
    app.generate_firmware();
    assert_eq!(app.error_message, None);
    assert_eq!(app.success_message.as_deref(), Some("固件版本号生成成功！"));
    assert_eq!(app.firmware_generate.generated_code, "S0AE1DA4");
}

#[test]
fn year_field_errors() {
    let mut app = SsdToolApp::new();
    app.firmware_generate.year = String::from("abc");
    app.generate_firmware();
    assert_eq!(app.error_message.as_deref(), Some("无效的年份"));
    assert_eq!(app.success_message, None);
    app.firmware_generate.year = String::from("2024");
    app.generate_firmware();
    assert_eq!(app.error_message.as_deref(), Some("年份必须在2025-2099之间"));
    app.firmware_generate.year = String::from("2100");
    app.generate_firmware();
    assert_eq!(app.error_message.as_deref(), Some("年份必须在2025-2099之间"));
}

#[test]
fn month_and_day_field_errors() {
    let mut app = SsdToolApp::new();
    app.firmware_generate.month = String::from("13");
    app.generate_firmware();
    assert_eq!(app.error_message.as_deref(), Some("月份必须在1-12之间"));
    app.firmware_generate.month = String::from("x");
    app.generate_firmware();
    assert_eq!(app.error_message.as_deref(), Some("无效的月份"));
    app.firmware_generate.month = String::from("12");
    app.firmware_generate.day = String::from("32");
    app.generate_firmware();
    assert_eq!(app.error_message.as_deref(), Some("日期必须在1-31之间"));
    app.firmware_generate.day = String::from("");
    app.generate_firmware();
    assert_eq!(app.error_message.as_deref(), Some("无效的日期"));
}

#[test]
fn pcb_and_dram_field_errors() {
    let mut app = SsdToolApp::new();
    app.firmware_generate.pcb_size = String::from("9");
    app.generate_firmware();
    assert_eq!(app.error_message.as_deref(), Some("无效的PCB尺寸代码"));
    app.firmware_generate.pcb_size = String::from("-1");
    app.generate_firmware();
    assert_eq!(app.error_message.as_deref(), Some("无效的PCB尺寸"));
    app.firmware_generate.pcb_size = String::from("1");
    app.firmware_generate.dram_size = String::from("0");
    app.generate_firmware();
    assert_eq!(
        app.error_message.as_deref(),
        Some("DRAM大小必须为正数或-1(DRAMLess)")
    );
    app.firmware_generate.dram_size = String::from("many");
    app.generate_firmware();
    assert_eq!(app.error_message.as_deref(), Some("无效的DRAM大小"));
}

#[test]
fn package_and_chip_field_errors() {
    let mut app = SsdToolApp::new();
    app.firmware_generate.package_code = String::from("");
    app.generate_firmware();
    assert_eq!(app.error_message.as_deref(), Some("请输入封装代码"));
    app.firmware_generate.package_code = String::from("Z");
    app.generate_firmware();
    assert_eq!(app.error_message.as_deref(), Some("无效的封装代码"));
    app.firmware_generate.package_code = String::from("A");
    app.firmware_generate.chip_count = String::from("17");
    app.generate_firmware();
    assert_eq!(app.error_message.as_deref(), Some("颗粒数量必须在1-16之间"));
    app.firmware_generate.chip_count = String::from("four");
    app.generate_firmware();
    assert_eq!(app.error_message.as_deref(), Some("无效的颗粒数量"));
}

#[test]
fn generate_failure_reports_codec_message() {
    let mut app = SsdToolApp::new();
    // 2025-02-30 passes the form's coarse ranges but is no calendar date.
    app.firmware_generate.month = String::from("2");
    app.firmware_generate.day = String::from("30");
    app.generate_firmware();
    assert_eq!(
        app.error_message.as_deref(),
        Some("生成失败: 日期编码错误: 无效的目标日期")
    );
    assert_eq!(app.success_message, None);
}

#[test]
fn generate_failure_unsupported_dram() {
    let mut app = SsdToolApp::new();
    app.firmware_generate.dram_size = String::from("333");
    app.generate_firmware();
    assert_eq!(
        app.error_message.as_deref(),
        Some("生成失败: 无效的参数: 不支持的DRAM大小")
    );
}

#[test]
fn parse_round_trip_with_whitespace() {
    let mut app = SsdToolApp::new();
    app.firmware_parse.firmware_code = String::from("  S0AE1DA4\n");
    app.parse_firmware();
    assert_eq!(app.error_message, None);
    assert_eq!(app.success_message.as_deref(), Some("固件版本号解析成功！"));
    let p = app.firmware_parse.parsed_result.as_ref().unwrap();
    assert_eq!(p.year, 2025);
    assert_eq!(p.month, 12);
    assert_eq!(p.day, 1);
    assert_eq!(p.pcb_size, 1);
    assert_eq!(p.dram_size_mb, 1024);
    assert_eq!(p.package_code, 'A');
    assert_eq!(p.chip_count, 4);
}

#[test]
fn parse_empty_input_asks_for_a_code() {
    let mut app = SsdToolApp::new();
    app.firmware_parse.firmware_code = String::from("   ");
    app.parse_firmware();
    assert_eq!(app.error_message.as_deref(), Some("请输入固件版本号"));
    assert!(app.firmware_parse.parsed_result.is_none());
}

#[test]
fn parse_failure_reports_codec_message() {
    let mut app = SsdToolApp::new();
    app.firmware_parse.firmware_code = String::from("T0000000");
    app.parse_firmware();
    assert_eq!(
        app.error_message.as_deref(),
        Some("解析失败: SN码格式错误: 无效的固件版本号格式")
    );
    assert!(app.firmware_parse.parsed_result.is_none());
}

#[test]
fn clear_messages_resets_both() {
    let mut app = SsdToolApp::new();
    app.firmware_generate.year = String::from("abc");
    app.generate_firmware();
    assert!(app.error_message.is_some());
    app.clear_messages();
    assert_eq!(app.error_message, None);
    assert_eq!(app.success_message, None);
}
