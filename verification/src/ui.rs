//! The application state behind the form-based front end: input fields as
//! text, the decisions taken on them (parsing, range checks, table checks,
//! codec calls), and the messages shown for each outcome. Rendering is left
//! to the surrounding program; everything here is a pure state transition.

use vstd::prelude::*;
use vstd::string::*;
use crate::config::{SnConfig, assoc_find};
use crate::error::SnError;
use crate::firmware_codec::{FirmwareCodec, spec_generate, spec_parse, spec_date_code};
use crate::text::{
    spec_parse_num, trim_view, trim_str, parse_i32_str, parse_u32_str, parse_u8_str, upper_char,
};
use crate::calendar::valid_civil_date;

verus! {

/// The tabs of the front end.
#[derive(PartialEq)]
pub enum Tab {
    Firmware,
}

/// The text fields of the generation form, and the last generated code.
pub struct FirmwareGenerateState {
    pub year: String,
    pub month: String,
    pub day: String,
    pub pcb_size: String,
    pub dram_size: String,
    pub package_code: String,
    pub chip_count: String,
    pub generated_code: String,
}

/// The text field of the parsing form, and the last parsed result.
pub struct FirmwareParseState {
    pub firmware_code: String,
    pub parsed_result: Option<ParsedFirmware>,
}

/// A parsed firmware code, field by field.
pub struct ParsedFirmware {
    pub year: i32,
    pub month: u32,
    pub day: u32,
    pub pcb_size: u8,
    pub dram_size_mb: i32,
    pub package_code: char,
    pub chip_count: u8,
}

/// The application state.
pub struct SsdToolApp {
    pub active_tab: Tab,
    pub config: SnConfig,
    pub firmware_generate: FirmwareGenerateState,
    pub firmware_parse: FirmwareParseState,
    pub error_message: Option<String>,
    pub success_message: Option<String>,
}

/// The signed 32-bit value of a numeral, as `str::parse::<i32>` reads it.
pub open spec fn spec_i32_of(s: Seq<char>) -> Option<int> {
    match spec_parse_num(s) {
        Some((neg, v)) => {
            let x = if neg {
                -v
            } else {
                v
            };
            if -0x8000_0000 <= x <= 0x7FFF_FFFF {
                Some(x)
            } else {
                None
            }
        },
        None => None,
    }
}

/// The unsigned 32-bit value of a numeral, as `str::parse::<u32>` reads it.
pub open spec fn spec_u32_of(s: Seq<char>) -> Option<int> {
    match spec_parse_num(s) {
        Some((neg, v)) => if !neg && v <= 0xFFFF_FFFF {
            Some(v)
        } else {
            None
        },
        None => None,
    }
}

/// The unsigned 8-bit value of a numeral, as `str::parse::<u8>` reads it.
pub open spec fn spec_u8_of(s: Seq<char>) -> Option<int> {
    match spec_parse_num(s) {
        Some((neg, v)) => if !neg && v <= 0xFF {
            Some(v)
        } else {
            None
        },
        None => None,
    }
}

/// What the generation form decides before the codec is invoked: either the
/// parsed and range-checked attribute tuple, or the message of the first
/// field that fails, in form order.
pub open spec fn spec_gen_step(app: SsdToolApp) -> Result<
    (i32, u32, u32, u8, i32, char, u8),
    Seq<char>,
> {
    let g = app.firmware_generate;
    match spec_i32_of(g.year@) {
        None => Err("无效的年份"@),
        Some(y) => if !(2025 <= y <= 2099) {
            Err("年份必须在2025-2099之间"@)
        } else {
            match spec_u32_of(g.month@) {
                None => Err("无效的月份"@),
                Some(mo) => if !(1 <= mo <= 12) {
                    Err("月份必须在1-12之间"@)
                } else {
                    match spec_u32_of(g.day@) {
                        None => Err("无效的日期"@),
                        Some(dy) => if !(1 <= dy <= 31) {
                            Err("日期必须在1-31之间"@)
                        } else {
                            match spec_u8_of(g.pcb_size@) {
                                None => Err("无效的PCB尺寸"@),
                                Some(p) => if assoc_find(app.config.pcb_sizes@, p as u8)
                                    is None {
                                    Err("无效的PCB尺寸代码"@)
                                } else {
                                    match spec_i32_of(g.dram_size@) {
                                        None => Err("无效的DRAM大小"@),
                                        Some(v) => if !(v == -1 || v > 0) {
                                            Err("DRAM大小必须为正数或-1(DRAMLess)"@)
                                        } else {
                                            if g.package_code@.len() == 0 {
                                                Err("请输入封装代码"@)
                                            } else {
                                                let c = g.package_code@[0];
                                                if assoc_find(
                                                    app.config.packages@,
                                                    upper_char(c),
                                                ) is None {
                                                    Err("无效的封装代码"@)
                                                } else {
                                                    match spec_u8_of(g.chip_count@) {
                                                        None => Err("无效的颗粒数量"@),
                                                        Some(n) => if !(app.config.chip_count.min
                                                            <= n
                                                            <= app.config.chip_count.max) {
                                                            Err("颗粒数量必须在1-16之间"@)
                                                        } else {
                                                            Ok(
                                                                (
                                                                    y as i32,
                                                                    mo as u32,
                                                                    dy as u32,
                                                                    p as u8,
                                                                    v as i32,
                                                                    c,
                                                                    n as u8,
                                                                ),
                                                            )
                                                        },
                                                    }
                                                }
                                            }
                                        },
                                    }
                                },
                            }
                        },
                    }
                },
            }
        },
    }
}

/// The message shown when the codec itself rejects a generation request
/// whose fields all passed the form checks: a date-code failure or an
/// unsupported memory size.
pub open spec fn spec_gen_err_message(cfg: SnConfig, y: i32, m: u32, d: u32) -> Seq<char> {
    let b = cfg.base_date;
    if spec_date_code(cfg, y as int, m as int, d as int) is None {
        "生成失败: "@ + ("日期编码错误: "@ + (if !valid_civil_date(
            y as int,
            m as int,
            d as int,
        ) {
            "无效的目标日期"@
        } else if !valid_civil_date(b.year as int, b.month as int, b.day as int) {
            "无效的基准日期"@
        } else {
            "日期超出范围"@
        }))
    } else {
        "生成失败: "@ + ("无效的参数: "@ + "不支持的DRAM大小"@)
    }
}

impl SsdToolApp {
    /// The well-formedness carried by every constructed application state.
    pub open spec fn wf(self) -> bool {
        self.config.wf()
    }

    pub fn new() -> (r: Self)
        ensures
            r.wf(),
            r.config.base_date.year == 2025 && r.config.base_date.month == 1
                && r.config.base_date.day == 1 && r.config.base32_chars@
                == "0123456789ABCDEFGHJKMNPQRSTVWXYZ"@,
            r.error_message is None && r.success_message is None,
            r.firmware_generate.year@ == "2025"@ && r.firmware_generate.month@ == "12"@
                && r.firmware_generate.day@ == "1"@ && r.firmware_generate.pcb_size@ == "1"@
                && r.firmware_generate.dram_size@ == "1024"@ && r.firmware_generate.package_code@
                == "A"@ && r.firmware_generate.chip_count@ == "4"@
                && r.firmware_generate.generated_code@ == Seq::<char>::empty(),
            r.firmware_parse.firmware_code@ == Seq::<char>::empty()
                && r.firmware_parse.parsed_result is None,
    {
        Self::make_default()
    }

    /// The initial state: the example inputs filled in, nothing generated
    /// or parsed yet, and the default configuration loaded.
    fn make_default() -> (r: Self)
        ensures
            r.wf(),
            r.config.base_date.year == 2025 && r.config.base_date.month == 1
                && r.config.base_date.day == 1 && r.config.base32_chars@
                == "0123456789ABCDEFGHJKMNPQRSTVWXYZ"@,
            r.error_message is None && r.success_message is None,
            r.firmware_generate.year@ == "2025"@ && r.firmware_generate.month@ == "12"@
                && r.firmware_generate.day@ == "1"@ && r.firmware_generate.pcb_size@ == "1"@
                && r.firmware_generate.dram_size@ == "1024"@ && r.firmware_generate.package_code@
                == "A"@ && r.firmware_generate.chip_count@ == "4"@
                && r.firmware_generate.generated_code@ == Seq::<char>::empty(),
            r.firmware_parse.firmware_code@ == Seq::<char>::empty()
                && r.firmware_parse.parsed_result is None,
    {
        let config = match SnConfig::new() {
            Ok(c) => c,
            Err(_) => vstd::pervasive::unreached(),
        };
        SsdToolApp {
            active_tab: Tab::Firmware,
            config,
            firmware_generate: FirmwareGenerateState {
                year: String::from_str("2025"),
                month: String::from_str("12"),
                day: String::from_str("1"),
                pcb_size: String::from_str("1"),
                dram_size: String::from_str("1024"),
                package_code: String::from_str("A"),
                chip_count: String::from_str("4"),
                generated_code: String::new(),
            },
            firmware_parse: FirmwareParseState {
                firmware_code: String::new(),
                parsed_result: None,
            },
            error_message: None,
            success_message: None,
        }
    }

    /// Clears both messages and leaves everything else as it is.
    pub fn clear_messages(&mut self)
        ensures
            final(self).error_message is None,
            final(self).success_message is None,
            final(self).active_tab == old(self).active_tab,
            final(self).config == old(self).config,
            final(self).firmware_generate == old(self).firmware_generate,
            final(self).firmware_parse == old(self).firmware_parse,
    {
        self.error_message = None;
        self.success_message = None;
    }

    /// Reads the form fields, validates them in form order, invokes the
    /// codec, and records either the generated code with a success message
    /// or the message of the first failure.
    pub fn generate_firmware(&mut self)
        requires
            old(self).wf(),
        ensures
            final(self).wf(),
            final(self).active_tab == old(self).active_tab,
            final(self).config == old(self).config,
            final(self).firmware_parse == old(self).firmware_parse,
            final(self).firmware_generate.year == old(self).firmware_generate.year,
            final(self).firmware_generate.month == old(self).firmware_generate.month,
            final(self).firmware_generate.day == old(self).firmware_generate.day,
            final(self).firmware_generate.pcb_size == old(self).firmware_generate.pcb_size,
            final(self).firmware_generate.dram_size == old(self).firmware_generate.dram_size,
            final(self).firmware_generate.package_code == old(
                self,
            ).firmware_generate.package_code,
            final(self).firmware_generate.chip_count == old(self).firmware_generate.chip_count,
            match spec_gen_step(*old(self)) {
                Err(msg) => {
                    &&& final(self).error_message matches Some(m) && m@ == msg
                    &&& final(self).success_message is None
                    &&& final(self).firmware_generate.generated_code == old(
                        self,
                    ).firmware_generate.generated_code
                },
                Ok(args) => match spec_generate(
                    old(self).config,
                    args.0,
                    args.1,
                    args.2,
                    args.3,
                    args.4,
                    args.5,
                    args.6,
                ) {
                    Some(code) => {
                        &&& final(self).firmware_generate.generated_code@ == code
                        &&& final(self).success_message matches Some(m) && m@
                            == "固件版本号生成成功！"@
                        &&& final(self).error_message is None
                    },
                    None => {
                        &&& final(self).error_message matches Some(m) && m@
                            == spec_gen_err_message(old(self).config, args.0, args.1, args.2)
                        &&& final(self).success_message is None
                        &&& final(self).firmware_generate.generated_code == old(
                            self,
                        ).firmware_generate.generated_code
                    },
                },
            },
    {
        self.error_message = None;
        self.success_message = None;
        let year = match parse_i32_str(self.firmware_generate.year.as_str()) {
            Some(y) => {
                if y >= 2025 && y <= 2099 {
                    y
                } else {
                    self.error_message = Some(String::from_str("年份必须在2025-2099之间"));
                    return ;
                }
            },
            None => {
                self.error_message = Some(String::from_str("无效的年份"));
                return ;
            },
        };
        let month = match parse_u32_str(self.firmware_generate.month.as_str()) {
            Some(m) => {
                if m >= 1 && m <= 12 {
                    m
                } else {
                    self.error_message = Some(String::from_str("月份必须在1-12之间"));
                    return ;
                }
            },
            None => {
                self.error_message = Some(String::from_str("无效的月份"));
                return ;
            },
        };
        let day = match parse_u32_str(self.firmware_generate.day.as_str()) {
            Some(d) => {
                if d >= 1 && d <= 31 {
                    d
                } else {
                    self.error_message = Some(String::from_str("日期必须在1-31之间"));
                    return ;
                }
            },
            None => {
                self.error_message = Some(String::from_str("无效的日期"));
                return ;
            },
        };
        let pcb_size = match parse_u8_str(self.firmware_generate.pcb_size.as_str()) {
            Some(p) => {
                if self.config.is_valid_pcb_size(p) {
                    p
                } else {
                    self.error_message = Some(String::from_str("无效的PCB尺寸代码"));
                    return ;
                }
            },
            None => {
                self.error_message = Some(String::from_str("无效的PCB尺寸"));
                return ;
            },
        };
        let dram_size_mb = match parse_i32_str(self.firmware_generate.dram_size.as_str()) {
            Some(v) => {
                if v == -1 || v > 0 {
                    v
                } else {
                    self.error_message = Some(
                        String::from_str("DRAM大小必须为正数或-1(DRAMLess)"),
                    );
                    return ;
                }
            },
            None => {
                self.error_message = Some(String::from_str("无效的DRAM大小"));
                return ;
            },
        };
        let package_code: char;
        if self.firmware_generate.package_code.as_str().unicode_len() > 0 {
            let c = self.firmware_generate.package_code.as_str().get_char(0);
            if self.config.is_valid_package(c) {
                package_code = c;
            } else {
                self.error_message = Some(String::from_str("无效的封装代码"));
                return ;
            }
        } else {
            self.error_message = Some(String::from_str("请输入封装代码"));
            return ;
        }
        let chip_count = match parse_u8_str(self.firmware_generate.chip_count.as_str()) {
            Some(n) => {
                if self.config.is_valid_chip_count(n) {
                    n
                } else {
                    self.error_message = Some(String::from_str("颗粒数量必须在1-16之间"));
                    return ;
                }
            },
            None => {
                self.error_message = Some(String::from_str("无效的颗粒数量"));
                return ;
            },
        };
        match FirmwareCodec::generate_firmware_code(
            &self.config,
            year,
            month,
            day,
            pcb_size,
            dram_size_mb,
            package_code,
            chip_count,
        ) {
            Ok(code) => {
                self.firmware_generate.generated_code = code;
                self.success_message = Some(String::from_str("固件版本号生成成功！"));
            },
            Err(e) => {
                let mut msg = String::from_str("生成失败: ");
                let detail = e.message();
                msg.append(detail.as_str());
                self.error_message = Some(msg);
            },
        }
    }

    /// Trims the entered code, parses it, and records either the decoded
    /// fields with a success message or the message of the failure.
    pub fn parse_firmware(&mut self)
        requires
            old(self).wf(),
        ensures
            final(self).wf(),
            final(self).active_tab == old(self).active_tab,
            final(self).config == old(self).config,
            final(self).firmware_generate == old(self).firmware_generate,
            final(self).firmware_parse.firmware_code == old(self).firmware_parse.firmware_code,
            ({
                let t = trim_view(old(self).firmware_parse.firmware_code@);
                if t.len() == 0 {
                    &&& final(self).error_message matches Some(m) && m@
                        == "请输入固件版本号"@
                    &&& final(self).success_message is None
                    &&& final(self).firmware_parse.parsed_result is None
                } else {
                    match spec_parse(old(self).config, t) {
                        Some(p) => {
                            &&& final(self).firmware_parse.parsed_result matches Some(pf)
                                && pf.year as int == p.0 && pf.month as int == p.1 && pf.day as int
                                == p.2 && pf.pcb_size as int == p.3 && pf.dram_size_mb as int
                                == p.4 && pf.package_code == p.5 && pf.chip_count as int == p.6
                            &&& final(self).success_message matches Some(m) && m@
                                == "固件版本号解析成功！"@
                            &&& final(self).error_message is None
                        },
                        None => {
                            &&& final(self).error_message matches Some(m) && m@
                                == "解析失败: "@ + spec_parse_err_message(old(self).config, t)
                            &&& final(self).success_message is None
                            &&& final(self).firmware_parse.parsed_result is None
                        },
                    }
                }
            }),
    {
        self.error_message = None;
        self.success_message = None;
        self.firmware_parse.parsed_result = None;
        let code = trim_str(self.firmware_parse.firmware_code.as_str());
        if code.unicode_len() == 0 {
            self.error_message = Some(String::from_str("请输入固件版本号"));
            return ;
        }
        match FirmwareCodec::parse_firmware_code(&self.config, code) {
            Ok((year, month, day, pcb_size, dram_size_mb, package_code, chip_count)) => {
                self.firmware_parse.parsed_result = Some(
                    ParsedFirmware {
                        year,
                        month,
                        day,
                        pcb_size,
                        dram_size_mb,
                        package_code,
                        chip_count,
                    },
                );
                self.success_message = Some(String::from_str("固件版本号解析成功！"));
            },
            Err(e) => {
                let mut msg = String::from_str("解析失败: ");
                let detail = e.message();
                msg.append(detail.as_str());
                self.error_message = Some(msg);
            },
        }
    }
}

/// The full message text of a rejected parse: the error kind's prefix
/// followed by the detail of the first check that fails, in parse order.
pub open spec fn spec_parse_err_message(cfg: SnConfig, s: Seq<char>) -> Seq<char> {
    let alph = cfg.base32_chars@;
    let b = cfg.base_date;
    if s.len() != 8 || s[0] != 'S' {
        "SN码格式错误: "@ + "无效的固件版本号格式"@
    } else if crate::firmware_codec::spec_decode3(s.subrange(1, 4), alph) is None {
        "日期编码错误: "@ + ("无效日期编码字符: "@ + seq![
            if crate::firmware_codec::alphabet_pos(alph, s[1]) is None {
                s[1]
            } else if crate::firmware_codec::alphabet_pos(alph, s[2]) is None {
                s[2]
            } else {
                s[3]
            },
        ])
    } else if !valid_civil_date(b.year as int, b.month as int, b.day as int) {
        "日期编码错误: "@ + "无效的基准日期"@
    } else if crate::calendar::day_number(b.year as int, b.month as int, b.day as int)
        + crate::firmware_codec::spec_decode3(s.subrange(1, 4), alph).unwrap()
        > crate::calendar::day_number(crate::calendar::MAX_CIVIL_YEAR as int, 12, 31) {
        "日期编码错误: "@ + "日期超出范围"@
    } else if !(crate::text::is_digit_char(s[4]) && assoc_find(
        cfg.pcb_sizes@,
        crate::text::digit_val(s[4]) as u8,
    ) is Some) {
        "SN码格式错误: "@ + "无效的PCB尺寸代码"@
    } else if assoc_find(cfg.dram_sizes@, upper_char(s[5])) is None {
        "SN码格式错误: "@ + "无效的DRAM大小代码"@
    } else if assoc_find(cfg.packages@, upper_char(s[6])) is None {
        "SN码格式错误: "@ + "无效的封装代码"@
    } else if crate::firmware_codec::spec_chip_count(s[7]) is None {
        "无效的参数: "@ + "无效的颗粒个数代码"@
    } else {
        "SN码格式错误: "@ + "无效的颗粒个数"@
    }
}

} // verus!
