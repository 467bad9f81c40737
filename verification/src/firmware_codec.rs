//! The firmware-code codec: a reversible mapping between manufacturing
//! attributes (production date, board size, memory size, package, chip
//! count) and a fixed-width eight-character code with the leading tag `S`.

use vstd::prelude::*;
use vstd::string::*;
use vstd::arithmetic::div_mod::{
    lemma_fundamental_div_mod, lemma_fundamental_div_mod_converse, lemma_mod_bound,
    lemma_multiply_divide_lt, lemma_div_pos_is_pos, lemma_div_denominator,
};
use crate::calendar::{
    valid_civil_date, day_number, date_of_day_number, is_valid_civil_date, chrono_days_between,
    chrono_date_after, lemma_day_number_injective, lemma_day_number_le_max, MAX_CIVIL_YEAR,
};
use crate::config::{
    SnConfig, assoc_find, lemma_assoc_find_mem, lemma_assoc_find_unique,
};
use crate::error::SnError;
use crate::text::{upper_char, to_upper_char, digit_char, digit_val, is_digit_char, push_char};

verus! {

pub struct FirmwareCodec;

/// The first position of `c`, upper-cased, in the alphabet, if any.
pub open spec fn alphabet_pos(alph: Seq<char>, c: char) -> Option<int>
    decreases alph.len(),
{
    if alph.len() == 0 {
        None
    } else if alph[0] == upper_char(c) {
        Some(0)
    } else {
        match alphabet_pos(alph.subrange(1, alph.len() as int), c) {
            Some(i) => Some(i + 1),
            None => None,
        }
    }
}

pub proof fn lemma_alphabet_pos_at(alph: Seq<char>, c: char, i: int)
    requires
        0 <= i <= alph.len(),
        forall|j: int| 0 <= j < i ==> alph[j] != upper_char(c),
    ensures
        i < alph.len() && alph[i] == upper_char(c) ==> alphabet_pos(alph, c) == Some(i),
        i == alph.len() ==> alphabet_pos(alph, c) is None,
    decreases i + 1,
{
    if i == 0 {
    } else {
        let t = alph.subrange(1, alph.len() as int);
        lemma_alphabet_pos_at(t, c, i - 1);
        if i < alph.len() {
            assert(t[i - 1] == alph[i]);
        }
    }
}

/// In an alphabet of distinct, uppercase-stable characters, the position of
/// the character at index `d` is `d` itself.
pub proof fn lemma_alphabet_pos_of_index(alph: Seq<char>, d: int)
    requires
        0 <= d < alph.len(),
        forall|i: int, j: int| 0 <= i < j < alph.len() ==> alph[i] != alph[j],
        forall|i: int| 0 <= i < alph.len() ==> upper_char(#[trigger] alph[i]) == alph[i],
    ensures
        alphabet_pos(alph, alph[d]) == Some(d),
{
    assert(upper_char(alph[d]) == alph[d]);
    lemma_alphabet_pos_at(alph, alph[d], d);
}

/// The three-character big-endian base-`alph.len()` encoding of `n`.
pub open spec fn spec_encode3(n: int, alph: Seq<char>) -> Seq<char> {
    let r = alph.len() as int;
    seq![alph[n / (r * r)], alph[(n / r) % r], alph[n % r]]
}

/// The value of three base-`alph.len()` digit characters, most significant
/// first, or `None` when a character is not in the alphabet.
pub open spec fn spec_decode3(s: Seq<char>, alph: Seq<char>) -> Option<int> {
    let r = alph.len() as int;
    if s.len() == 3 && alphabet_pos(alph, s[0]) is Some && alphabet_pos(alph, s[1]) is Some
        && alphabet_pos(alph, s[2]) is Some {
        Some(
            (alphabet_pos(alph, s[0]).unwrap() * r + alphabet_pos(alph, s[1]).unwrap()) * r
                + alphabet_pos(alph, s[2]).unwrap(),
        )
    } else {
        None
    }
}

/// The date code of a date under a configuration: the day offset from the
/// epoch, encoded in three alphabet digits, when the date, the epoch and the
/// offset range all allow it.
pub open spec fn spec_date_code(cfg: SnConfig, y: int, m: int, d: int) -> Option<Seq<char>> {
    let e = cfg.base_date;
    let r = cfg.base32_chars@.len() as int;
    if valid_civil_date(y, m, d) && valid_civil_date(e.year as int, e.month as int, e.day as int) {
        let n = day_number(y, m, d) - day_number(e.year as int, e.month as int, e.day as int);
        if 0 <= n < r * r * r {
            Some(spec_encode3(n, cfg.base32_chars@))
        } else {
            None
        }
    } else {
        None
    }
}

/// The character of the first non-reserved memory-table entry whose value
/// is `size`, if any.
pub open spec fn spec_dram_code_of_size(s: Seq<(char, i32)>, size: i32) -> Option<char>
    decreases s.len(),
{
    if s.len() == 0 {
        None
    } else if s[0].0 != 'X' && s[0].1 == size {
        Some(s[0].0)
    } else {
        spec_dram_code_of_size(s.subrange(1, s.len() as int), size)
    }
}

pub proof fn lemma_dram_code_of_size_at(s: Seq<(char, i32)>, size: i32, i: int)
    requires
        0 <= i <= s.len(),
        forall|j: int| 0 <= j < i ==> ((#[trigger] s[j]).0 == 'X' || s[j].1 != size),
    ensures
        i < s.len() && s[i].0 != 'X' && s[i].1 == size ==> spec_dram_code_of_size(s, size)
            == Some(s[i].0),
        i == s.len() ==> spec_dram_code_of_size(s, size) is None,
    decreases i + 1,
{
    if i == 0 {
    } else {
        let t = s.subrange(1, s.len() as int);
        lemma_dram_code_of_size_at(t, size, i - 1);
        if i < s.len() {
            assert(t[i - 1] == s[i]);
        }
    }
}

/// The chip-count character of a count: `1`-`9`, then `A`-`F`, then `G`.
pub open spec fn spec_chip_char(count: int) -> Option<char> {
    if 1 <= count <= 9 {
        Some(((48 + count) as u8) as char)
    } else if 10 <= count <= 15 {
        Some(((65 + (count - 10)) as u8) as char)
    } else if count == 16 {
        Some('G')
    } else {
        None
    }
}

/// The count of a chip-count character, accepting both letter cases.
pub open spec fn spec_chip_count(c: char) -> Option<int> {
    if '1' <= c && c <= '9' {
        Some(c as u32 - 48)
    } else if 'A' <= c && c <= 'F' {
        Some(10 + (c as u32 - 65))
    } else if 'a' <= c && c <= 'f' {
        Some(10 + (c as u32 - 97))
    } else if c == 'G' || c == 'g' {
        Some(16)
    } else {
        None
    }
}

/// The firmware code of an attribute tuple: `None` when any field fails
/// validation or encoding, otherwise the eight characters
/// `S`, three date-code characters, the board-size digit, the memory-size
/// character, the upper-cased package character and the chip-count
/// character.
pub open spec fn spec_generate(
    cfg: SnConfig,
    y: i32,
    m: u32,
    d: u32,
    pcb: u8,
    dram: i32,
    pkg: char,
    chips: u8,
) -> Option<Seq<char>> {
    if assoc_find(cfg.pcb_sizes@, pcb) is Some && cfg.chip_count.min <= chips && chips
        <= cfg.chip_count.max && assoc_find(cfg.packages@, upper_char(pkg)) is Some {
        match spec_date_code(cfg, y as int, m as int, d as int) {
            Some(dc) => {
                let dram_c = if dram == -1 {
                    Some('X')
                } else {
                    spec_dram_code_of_size(cfg.dram_sizes@, dram)
                };
                match dram_c {
                    Some(mc) => match spec_chip_char(chips as int) {
                        Some(cc) => Some(
                            seq!['S'] + dc + seq![
                                digit_char(pcb as int),
                                mc,
                                upper_char(pkg),
                                cc,
                            ],
                        ),
                        None => None,
                    },
                    None => None,
                }
            },
            None => None,
        }
    } else {
        None
    }
}

/// The attribute tuple of a firmware code: `None` when the code fails the
/// length or tag check or any field fails its table lookup or range check,
/// otherwise (year, month, day, board size, memory size, package character
/// as written, chip count).
pub open spec fn spec_parse(cfg: SnConfig, s: Seq<char>) -> Option<
    (int, int, int, int, int, char, int),
> {
    let alph = cfg.base32_chars@;
    let e = cfg.base_date;
    if s.len() != 8 || s[0] != 'S' {
        None
    } else {
        match spec_decode3(s.subrange(1, 4), alph) {
            Some(n) => {
                if valid_civil_date(e.year as int, e.month as int, e.day as int) && day_number(
                    e.year as int,
                    e.month as int,
                    e.day as int,
                ) + n <= day_number(MAX_CIVIL_YEAR as int, 12, 31) {
                    let t = date_of_day_number(
                        day_number(e.year as int, e.month as int, e.day as int) + n,
                    );
                    if is_digit_char(s[4]) && assoc_find(cfg.pcb_sizes@, digit_val(s[4]) as u8)
                        is Some {
                        match assoc_find(cfg.dram_sizes@, upper_char(s[5])) {
                            Some(v) => {
                                if assoc_find(cfg.packages@, upper_char(s[6])) is Some {
                                    match spec_chip_count(s[7]) {
                                        Some(cnt) => {
                                            if cfg.chip_count.min <= cnt && cnt
                                                <= cfg.chip_count.max {
                                                Some(
                                                    (
                                                        t.0,
                                                        t.1,
                                                        t.2,
                                                        digit_val(s[4]),
                                                        v as int,
                                                        s[6],
                                                        cnt,
                                                    ),
                                                )
                                            } else {
                                                None
                                            }
                                        },
                                        None => None,
                                    }
                                } else {
                                    None
                                }
                            },
                            None => None,
                        }
                    } else {
                        None
                    }
                } else {
                    None
                }
            },
            None => None,
        }
    }
}

impl FirmwareCodec {
    /// The configured epoch, after checking that it is a calendar date.
    pub fn get_base_date(config: &SnConfig) -> (r: Result<crate::config::BaseDate, SnError>)
        ensures
            ({
                let e = config.base_date;
                if valid_civil_date(e.year as int, e.month as int, e.day as int) {
                    r matches Ok(b) && b.year == e.year && b.month == e.month && b.day == e.day
                } else {
                    r matches Err(err) && err matches SnError::DateCodeError(m) && m@
                        == "无效的基准日期"@
                }
            }),
    {
        let e = &config.base_date;
        if is_valid_civil_date(e.year, e.month, e.day) {
            Ok(crate::config::BaseDate { year: e.year, month: e.month, day: e.day })
        } else {
            Err(SnError::DateCodeError(String::from_str("无效的基准日期")))
        }
    }

    /// Encodes a calendar date as its three-character date code: the day
    /// offset from the epoch in big-endian base-N notation.
    pub fn date_to_code(config: &SnConfig, year: i32, month: u32, day: u32) -> (r: Result<
        String,
        SnError,
    >)
        requires
            config.wf(),
        ensures
            r matches Ok(s) ==> spec_date_code(*config, year as int, month as int, day as int)
                == Some(s@),
            r is Err ==> spec_date_code(*config, year as int, month as int, day as int) is None,
            r matches Err(e) ==> e matches SnError::DateCodeError(m) && m@ == ({
                let b = config.base_date;
                if !valid_civil_date(year as int, month as int, day as int) {
                    "无效的目标日期"@
                } else if !valid_civil_date(b.year as int, b.month as int, b.day as int) {
                    "无效的基准日期"@
                } else {
                    "日期超出范围"@
                }
            }),
    {
        if !is_valid_civil_date(year, month, day) {
            return Err(SnError::DateCodeError(String::from_str("无效的目标日期")));
        }
        let b = &config.base_date;
        if !is_valid_civil_date(b.year, b.month, b.day) {
            return Err(SnError::DateCodeError(String::from_str("无效的基准日期")));
        }
        let days = chrono_days_between(b.year, b.month, b.day, year, month, day);
        let radix = config.base32_chars.as_str().unicode_len() as i64;
        proof {
            assert(radix * radix < 0x40000000000) by (nonlinear_arith)
                requires
                    0 < radix < 0x200000,
            ;
            assert((radix * radix) * radix < 0x8000000000000000) by (nonlinear_arith)
                requires
                    0 < radix < 0x200000,
            ;
        }
        let rr = radix * radix;
        let max = rr * radix;
        if days < 0 || days >= max {
            return Err(SnError::DateCodeError(String::from_str("日期超出范围")));
        }
        proof {
            lemma_div_pos_is_pos(days as int, rr as int);
            lemma_multiply_divide_lt(days as int, rr as int, radix as int);
            lemma_div_pos_is_pos(days as int, radix as int);
            lemma_mod_bound((days as int) / (radix as int), radix as int);
            lemma_mod_bound(days as int, radix as int);
        }
        let d2 = (days / rr) as usize;
        let d1 = ((days / radix) % radix) as usize;
        let d0 = (days % radix) as usize;
        let alph = config.base32_chars.as_str();
        let mut code = String::new();
        push_char(&mut code, alph.get_char(d2));
        push_char(&mut code, alph.get_char(d1));
        push_char(&mut code, alph.get_char(d0));
        proof {
            assert(code@ =~= spec_encode3(days as int, config.base32_chars@));
        }
        Ok(code)
    }

    /// Decodes a three-character date code back to the calendar date at the
    /// decoded day offset from the epoch.
    pub fn code_to_date(config: &SnConfig, code: &str) -> (r: Result<(i32, u32, u32), SnError>)
        requires
            config.wf(),
        ensures
            ({
                let alph = config.base32_chars@;
                let b = config.base_date;
                let eb = day_number(b.year as int, b.month as int, b.day as int);
                if code@.len() != 3 {
                    r matches Err(e) && e matches SnError::DateCodeError(m) && m@
                        == "日期编码必须是3位字符"@
                } else if spec_decode3(code@, alph) is None {
                    r matches Err(e) && e matches SnError::DateCodeError(m) && m@ == (
                    "无效日期编码字符: "@ + seq![
                        if alphabet_pos(alph, code@[0]) is None {
                            code@[0]
                        } else if alphabet_pos(alph, code@[1]) is None {
                            code@[1]
                        } else {
                            code@[2]
                        },
                    ])
                } else if !valid_civil_date(b.year as int, b.month as int, b.day as int) {
                    r matches Err(e) && e matches SnError::DateCodeError(m) && m@
                        == "无效的基准日期"@
                } else if eb + spec_decode3(code@, alph).unwrap() > day_number(
                    MAX_CIVIL_YEAR as int,
                    12,
                    31,
                ) {
                    r matches Err(e) && e matches SnError::DateCodeError(m) && m@
                        == "日期超出范围"@
                } else {
                    let n = eb + spec_decode3(code@, alph).unwrap();
                    r matches Ok(t) && valid_civil_date(t.0 as int, t.1 as int, t.2 as int)
                        && day_number(t.0 as int, t.1 as int, t.2 as int) == n && (
                    t.0 as int, t.1 as int, t.2 as int) == date_of_day_number(n)
                }
            }),
    {
        if code.unicode_len() != 3 {
            return Err(SnError::DateCodeError(String::from_str("日期编码必须是3位字符")));
        }
        let p0 = match Self::alphabet_index(config, code.get_char(0)) {
            Some(p) => p,
            None => {
                return Err(SnError::DateCodeError(Self::bad_char_message(code.get_char(0))));
            },
        };
        let p1 = match Self::alphabet_index(config, code.get_char(1)) {
            Some(p) => p,
            None => {
                return Err(SnError::DateCodeError(Self::bad_char_message(code.get_char(1))));
            },
        };
        let p2 = match Self::alphabet_index(config, code.get_char(2)) {
            Some(p) => p,
            None => {
                return Err(SnError::DateCodeError(Self::bad_char_message(code.get_char(2))));
            },
        };
        let radix = config.base32_chars.as_str().unicode_len() as i64;
        proof {
            let q0 = p0 as int;
            let q1 = p1 as int;
            let q2 = p2 as int;
            let rad = radix as int;
            assert(0 <= q0 * rad + q1 < 0x40000000000 && 0 <= (q0 * rad + q1) * rad + q2 < rad
                * rad * rad && rad * rad * rad < 0x8000000000000000) by (nonlinear_arith)
                requires
                    0 < rad < 0x200000,
                    0 <= q0 < rad,
                    0 <= q1 < rad,
                    0 <= q2 < rad,
            ;
        }
        let days = ((p0 as i64) * radix + (p1 as i64)) * radix + (p2 as i64);
        let b = &config.base_date;
        if !is_valid_civil_date(b.year, b.month, b.day) {
            return Err(SnError::DateCodeError(String::from_str("无效的基准日期")));
        }
        match chrono_date_after(b.year, b.month, b.day, days as u64) {
            Some((y, m, d)) => {
                proof {
                    let n = day_number(b.year as int, b.month as int, b.day as int) + days;
                    let w = date_of_day_number(n);
                    assert(valid_civil_date(y as int, m as int, d as int) && day_number(
                        y as int,
                        m as int,
                        d as int,
                    ) == n);
                    lemma_day_number_injective(y as int, m as int, d as int, w.0, w.1, w.2);
                }
                Ok((y, m, d))
            },
            None => Err(SnError::DateCodeError(String::from_str("日期超出范围"))),
        }
    }

    /// The first position of `c`, upper-cased, in the configured alphabet.
    fn alphabet_index(config: &SnConfig, c: char) -> (r: Option<usize>)
        ensures
            r matches Some(p) ==> alphabet_pos(config.base32_chars@, c) == Some(p as int) && p
                < config.base32_chars@.len(),
            r is None ==> alphabet_pos(config.base32_chars@, c) is None,
    {
        let key = to_upper_char(c);
        let alph = config.base32_chars.as_str();
        let n = alph.unicode_len();
        let mut i: usize = 0;
        while i < n
            invariant
                0 <= i <= n,
                n == alph@.len(),
                alph@ == config.base32_chars@,
                key == upper_char(c),
                forall|j: int| 0 <= j < i ==> alph@[j] != upper_char(c),
            decreases n - i,
        {
            if alph.get_char(i) == key {
                proof {
                    lemma_alphabet_pos_at(alph@, c, i as int);
                }
                return Some(i);
            }
            i = i + 1;
        }
        proof {
            lemma_alphabet_pos_at(alph@, c, n as int);
        }
        None
    }

    /// Encodes a memory size as its table character: the sentinel size -1
    /// is always the reserved character `X`; any other size must be the
    /// value of some non-reserved table entry, the first such entry winning.
    pub fn dram_size_to_code(config: &SnConfig, size_mb: i32) -> (r: Result<char, SnError>)
        ensures
            size_mb == -1 ==> r == Ok::<char, SnError>('X'),
            size_mb != -1 ==> match spec_dram_code_of_size(config.dram_sizes@, size_mb) {
                Some(c) => r == Ok::<char, SnError>(c),
                None => r matches Err(e) && e matches SnError::InvalidParameter(m) && m@
                    == "不支持的DRAM大小"@,
            },
    {
        if size_mb == -1 {
            return Ok('X');
        }
        let n = config.dram_sizes.len();
        let mut i: usize = 0;
        while i < n
            invariant
                0 <= i <= n,
                n == config.dram_sizes@.len(),
                size_mb != -1,
                forall|j: int|
                    0 <= j < i ==> ((#[trigger] config.dram_sizes@[j]).0 == 'X'
                        || config.dram_sizes@[j].1 != size_mb),
            decreases n - i,
        {
            let entry = &config.dram_sizes[i];
            if entry.0 != 'X' && entry.1 == size_mb {
                proof {
                    lemma_dram_code_of_size_at(config.dram_sizes@, size_mb, i as int);
                }
                return Ok(entry.0);
            }
            i = i + 1;
        }
        proof {
            lemma_dram_code_of_size_at(config.dram_sizes@, size_mb, n as int);
        }
        Err(SnError::InvalidParameter(String::from_str("不支持的DRAM大小")))
    }

    /// Encodes a chip count as one character: `1`-`9` for 1 to 9, `A`-`F`
    /// for 10 to 15 and `G` for 16.
    pub fn chip_count_to_char(count: u8) -> (r: Result<char, SnError>)
        ensures
            match spec_chip_char(count as int) {
                Some(c) => r == Ok::<char, SnError>(c),
                None => r matches Err(e) && e matches SnError::InvalidParameter(m) && m@
                    == "颗粒个数超出范围 (1-16)"@,
            },
    {
        if 1 <= count && count <= 9 {
            Ok((48 + count) as char)
        } else if 10 <= count && count <= 15 {
            Ok((65 + (count - 10)) as char)
        } else if count == 16 {
            Ok('G')
        } else {
            Err(SnError::InvalidParameter(String::from_str("颗粒个数超出范围 (1-16)")))
        }
    }

    /// Decodes a chip-count character, accepting both letter cases.
    pub fn char_to_chip_count(c: char) -> (r: Result<u8, SnError>)
        ensures
            match spec_chip_count(c) {
                Some(v) => r == Ok::<u8, SnError>(v as u8),
                None => r matches Err(e) && e matches SnError::InvalidParameter(m) && m@
                    == "无效的颗粒个数代码"@,
            },
    {
        let u = c as u32;
        if 49 <= u && u <= 57 {
            Ok((u - 48) as u8)
        } else if 65 <= u && u <= 70 {
            Ok((10 + (u - 65)) as u8)
        } else if 97 <= u && u <= 102 {
            Ok((10 + (u - 97)) as u8)
        } else if c == 'G' || c == 'g' {
            Ok(16)
        } else {
            Err(SnError::InvalidParameter(String::from_str("无效的颗粒个数代码")))
        }
    }

    /// Assembles a firmware code from the attributes: the board size, chip
    /// count and package are validated against the tables first, then the
    /// date, memory size and chip count are encoded, and the fields are
    /// concatenated after the tag `S`.
    pub fn generate_firmware_code(
        config: &SnConfig,
        year: i32,
        month: u32,
        day: u32,
        pcb_size: u8,
        dram_size_mb: i32,
        package_code: char,
        chip_count: u8,
    ) -> (r: Result<String, SnError>)
        requires
            config.wf(),
        ensures
            r matches Ok(s) ==> spec_generate(
                *config,
                year,
                month,
                day,
                pcb_size,
                dram_size_mb,
                package_code,
                chip_count,
            ) == Some(s@),
            r is Err ==> spec_generate(
                *config,
                year,
                month,
                day,
                pcb_size,
                dram_size_mb,
                package_code,
                chip_count,
            ) is None,
            r matches Err(e) ==> ({
                let b = config.base_date;
                if assoc_find(config.pcb_sizes@, pcb_size) is None {
                    e matches SnError::InvalidParameter(m) && m@ == "无效的PCB尺寸代码"@
                } else if !(config.chip_count.min <= chip_count && chip_count
                    <= config.chip_count.max) {
                    e matches SnError::InvalidParameter(m) && m@ == "颗粒个数超出范围 (1-16)"@
                } else if assoc_find(config.packages@, upper_char(package_code)) is None {
                    e matches SnError::InvalidParameter(m) && m@ == "无效的封装代码"@
                } else if spec_date_code(*config, year as int, month as int, day as int)
                    is None {
                    e matches SnError::DateCodeError(m) && m@ == (if !valid_civil_date(
                        year as int,
                        month as int,
                        day as int,
                    ) {
                        "无效的目标日期"@
                    } else if !valid_civil_date(b.year as int, b.month as int, b.day as int) {
                        "无效的基准日期"@
                    } else {
                        "日期超出范围"@
                    })
                } else {
                    e matches SnError::InvalidParameter(m) && m@ == "不支持的DRAM大小"@
                }
            }),
    {
        if !config.is_valid_pcb_size(pcb_size) {
            return Err(SnError::InvalidParameter(String::from_str("无效的PCB尺寸代码")));
        }
        if !config.is_valid_chip_count(chip_count) {
            return Err(SnError::InvalidParameter(String::from_str("颗粒个数超出范围 (1-16)")));
        }
        if !config.is_valid_package(package_code) {
            return Err(SnError::InvalidParameter(String::from_str("无效的封装代码")));
        }
        let date_code = match Self::date_to_code(config, year, month, day) {
            Ok(s) => s,
            Err(e) => {
                return Err(e);
            },
        };
        let dram_code = match Self::dram_size_to_code(config, dram_size_mb) {
            Ok(c) => c,
            Err(e) => {
                return Err(e);
            },
        };
        let chip_char = match Self::chip_count_to_char(chip_count) {
            Ok(c) => c,
            Err(e) => {
                return Err(e);
            },
        };
        proof {
            lemma_assoc_find_mem(config.pcb_sizes@, pcb_size);
            let i = choose|i: int|
                0 <= i < config.pcb_sizes@.len() && (#[trigger] config.pcb_sizes@[i]).0
                    == pcb_size && config.pcb_sizes@[i].1 == assoc_find(
                    config.pcb_sizes@,
                    pcb_size,
                ).unwrap();
            assert(config.pcb_sizes@[i].0 <= 9);
            reveal_strlit("S");
        }
        let mut code = String::from_str("S");
        code.append(date_code.as_str());
        push_char(&mut code, (48 + pcb_size) as char);
        push_char(&mut code, dram_code);
        push_char(&mut code, to_upper_char(package_code));
        push_char(&mut code, chip_char);
        proof {
            assert(code@ =~= spec_generate(
                *config,
                year,
                month,
                day,
                pcb_size,
                dram_size_mb,
                package_code,
                chip_count,
            ).unwrap());
        }
        Ok(code)
    }

    /// Splits a firmware code into its attributes, validating the length,
    /// the tag and each field in order.
    pub fn parse_firmware_code(config: &SnConfig, firmware_code: &str) -> (r: Result<
        (i32, u32, u32, u8, i32, char, u8),
        SnError,
    >)
        requires
            config.wf(),
        ensures
            r matches Ok(t) ==> spec_parse(*config, firmware_code@) == Some(
                ((t.0 as int, t.1 as int, t.2 as int, t.3 as int, t.4 as int, t.5, t.6 as int)),
            ),
            r is Err ==> spec_parse(*config, firmware_code@) is None,
            r matches Err(e) ==> ({
                let s = firmware_code@;
                let alph = config.base32_chars@;
                let b = config.base_date;
                if s.len() != 8 || s[0] != 'S' {
                    e matches SnError::SnFormatError(m) && m@ == "无效的固件版本号格式"@
                } else if spec_decode3(s.subrange(1, 4), alph) is None {
                    e matches SnError::DateCodeError(m) && m@ == ("无效日期编码字符: "@
                        + seq![
                        if alphabet_pos(alph, s[1]) is None {
                            s[1]
                        } else if alphabet_pos(alph, s[2]) is None {
                            s[2]
                        } else {
                            s[3]
                        },
                    ])
                } else if !valid_civil_date(b.year as int, b.month as int, b.day as int) {
                    e matches SnError::DateCodeError(m) && m@ == "无效的基准日期"@
                } else if day_number(b.year as int, b.month as int, b.day as int) + spec_decode3(
                    s.subrange(1, 4),
                    alph,
                ).unwrap() > day_number(MAX_CIVIL_YEAR as int, 12, 31) {
                    e matches SnError::DateCodeError(m) && m@ == "日期超出范围"@
                } else if !(is_digit_char(s[4]) && assoc_find(
                    config.pcb_sizes@,
                    digit_val(s[4]) as u8,
                ) is Some) {
                    e matches SnError::SnFormatError(m) && m@ == "无效的PCB尺寸代码"@
                } else if assoc_find(config.dram_sizes@, upper_char(s[5])) is None {
                    e matches SnError::SnFormatError(m) && m@ == "无效的DRAM大小代码"@
                } else if assoc_find(config.packages@, upper_char(s[6])) is None {
                    e matches SnError::SnFormatError(m) && m@ == "无效的封装代码"@
                } else if spec_chip_count(s[7]) is None {
                    e matches SnError::InvalidParameter(m) && m@ == "无效的颗粒个数代码"@
                } else {
                    e matches SnError::SnFormatError(m) && m@ == "无效的颗粒个数"@
                }
            }),
    {
        let n = firmware_code.unicode_len();
        if n != 8 || firmware_code.get_char(0) != 'S' {
            return Err(SnError::SnFormatError(String::from_str("无效的固件版本号格式")));
        }
        let date_part = firmware_code.substring_char(1, 4);
        let (year, month, day) = match Self::code_to_date(config, date_part) {
            Ok(t) => t,
            Err(e) => {
                return Err(e);
            },
        };
        let pcb_char = firmware_code.get_char(4);
        let pu = pcb_char as u32;
        if pu < 48 || pu > 57 {
            return Err(SnError::SnFormatError(String::from_str("无效的PCB尺寸代码")));
        }
        let pcb_size = (pu - 48) as u8;
        if !config.is_valid_pcb_size(pcb_size) {
            return Err(SnError::SnFormatError(String::from_str("无效的PCB尺寸代码")));
        }
        let dram_char = firmware_code.get_char(5);
        let dram_size_mb = match config.dram_lookup(dram_char) {
            Some(v) => v,
            None => {
                return Err(SnError::SnFormatError(String::from_str("无效的DRAM大小代码")));
            },
        };
        let package_code = firmware_code.get_char(6);
        if !config.is_valid_package(package_code) {
            return Err(SnError::SnFormatError(String::from_str("无效的封装代码")));
        }
        let chip_char = firmware_code.get_char(7);
        let chip_count = match Self::char_to_chip_count(chip_char) {
            Ok(c) => c,
            Err(e) => {
                return Err(e);
            },
        };
        if !config.is_valid_chip_count(chip_count) {
            return Err(SnError::SnFormatError(String::from_str("无效的颗粒个数")));
        }
        Ok((year, month, day, pcb_size, dram_size_mb, package_code, chip_count))
    }

    /// The message for a date-code character outside the alphabet.
    fn bad_char_message(c: char) -> (r: String)
        ensures
            r@ == "无效日期编码字符: "@ + seq![c],
    {
        let mut s = String::from_str("无效日期编码字符: ");
        push_char(&mut s, c);
        s
    }
}

/// Looking a character up by its upper-cased form finds the same position
/// as looking it up directly.
pub proof fn lemma_alphabet_pos_upper(alph: Seq<char>, c: char)
    ensures
        alphabet_pos(alph, upper_char(c)) == alphabet_pos(alph, c),
    decreases alph.len(),
{
    crate::text::lemma_upper_idempotent(c);
    if alph.len() > 0 {
        lemma_alphabet_pos_upper(alph.subrange(1, alph.len() as int), c);
    }
}

/// A successful value search names a non-reserved entry with that value.
pub proof fn lemma_dram_code_of_size_mem(s: Seq<(char, i32)>, size: i32)
    requires
        spec_dram_code_of_size(s, size) is Some,
    ensures
        exists|i: int|
            0 <= i < s.len() && (#[trigger] s[i]).0 == spec_dram_code_of_size(s, size).unwrap()
                && s[i].1 == size && s[i].0 != 'X',
    decreases s.len(),
{
    if s.len() > 0 && !(s[0].0 != 'X' && s[0].1 == size) {
        let t = s.subrange(1, s.len() as int);
        lemma_dram_code_of_size_mem(t, size);
        let i = choose|i: int|
            0 <= i < t.len() && (#[trigger] t[i]).0 == spec_dram_code_of_size(t, size).unwrap()
                && t[i].1 == size && t[i].0 != 'X';
        assert(s[i + 1] == t[i]);
    }
}

/// Decoding the three-digit encoding of an offset yields the offset back,
/// for any alphabet of distinct uppercase-stable characters.
pub proof fn lemma_encode3_decode3(n: int, alph: Seq<char>)
    requires
        0 <= n < alph.len() * alph.len() * alph.len(),
        forall|i: int, j: int| 0 <= i < j < alph.len() ==> alph[i] != alph[j],
        forall|i: int| 0 <= i < alph.len() ==> upper_char(#[trigger] alph[i]) == alph[i],
    ensures
        spec_decode3(spec_encode3(n, alph), alph) == Some(n),
{
    let r = alph.len() as int;
    let d2 = n / (r * r);
    let d1 = (n / r) % r;
    let d0 = n % r;
    assert(r * r > 0) by (nonlinear_arith)
        requires
            r > 0,
    ;
    lemma_div_pos_is_pos(n, r * r);
    lemma_multiply_divide_lt(n, r * r, r);
    lemma_div_pos_is_pos(n, r);
    lemma_mod_bound(n / r, r);
    lemma_mod_bound(n, r);
    lemma_alphabet_pos_of_index(alph, d2);
    lemma_alphabet_pos_of_index(alph, d1);
    lemma_alphabet_pos_of_index(alph, d0);
    lemma_fundamental_div_mod(n, r);
    lemma_fundamental_div_mod(n / r, r);
    lemma_div_denominator(n, r, r);
    assert((d2 * r + d1) * r + d0 == n) by (nonlinear_arith)
        requires
            n == r * (n / r) + d0,
            n / r == r * d2 + d1,
    ;
    let s = spec_encode3(n, alph);
    assert(s[0] == alph[d2] && s[1] == alph[d1] && s[2] == alph[d0]);
}

/// Round trip: a code that generation accepts parses back to the exact
/// attribute tuple it was generated from, provided the package character
/// was supplied in its uppercase canonical form.
pub proof fn lemma_generate_parse_round_trip(
    cfg: SnConfig,
    y: i32,
    m: u32,
    d: u32,
    pcb: u8,
    dram: i32,
    pkg: char,
    chips: u8,
    code: Seq<char>,
)
    requires
        cfg.wf(),
        upper_char(pkg) == pkg,
        spec_generate(cfg, y, m, d, pcb, dram, pkg, chips) == Some(code),
    ensures
        spec_parse(cfg, code) == Some(
            (y as int, m as int, d as int, pcb as int, dram as int, pkg, chips as int),
        ),
{
    let alph = cfg.base32_chars@;
    let r = alph.len() as int;
    let e = cfg.base_date;
    let en = day_number(e.year as int, e.month as int, e.day as int);
    let n = day_number(y as int, m as int, d as int) - en;
    let dc = spec_encode3(n, alph);
    let mc = if dram == -1 {
        'X'
    } else {
        spec_dram_code_of_size(cfg.dram_sizes@, dram).unwrap()
    };
    let cc = spec_chip_char(chips as int).unwrap();
    assert(code == seq!['S'] + dc + seq![digit_char(pcb as int), mc, pkg, cc]);
    assert(code.len() == 8 && code[0] == 'S');
    assert(code.subrange(1, 4) =~= dc);
    lemma_encode3_decode3(n, alph);
    assert(spec_decode3(code.subrange(1, 4), alph) == Some(n));
    lemma_day_number_le_max(y as int, m as int, d as int);
    let w = date_of_day_number(en + n);
    let tup = (y as int, m as int, d as int);
    assert(valid_civil_date(tup.0, tup.1, tup.2) && day_number(tup.0, tup.1, tup.2) == en + n);
    assert(exists|t: (int, int, int)|
        valid_civil_date(t.0, t.1, t.2) && day_number(t.0, t.1, t.2) == en + n);
    assert(valid_civil_date(w.0, w.1, w.2) && day_number(w.0, w.1, w.2) == en + n);
    lemma_day_number_injective(w.0, w.1, w.2, y as int, m as int, d as int);
    // The board-size digit.
    lemma_assoc_find_mem(cfg.pcb_sizes@, pcb);
    let pi = choose|i: int|
        0 <= i < cfg.pcb_sizes@.len() && (#[trigger] cfg.pcb_sizes@[i]).0 == pcb
            && cfg.pcb_sizes@[i].1 == assoc_find(cfg.pcb_sizes@, pcb).unwrap();
    assert(cfg.pcb_sizes@[pi].0 <= 9);
    assert(is_digit_char(code[4]) && digit_val(code[4]) == pcb as int);
    // The memory-size character.
    if dram == -1 {
        assert(upper_char('X') == 'X');
        assert(assoc_find(cfg.dram_sizes@, upper_char(code[5])) == Some(-1i32));
    } else {
        lemma_dram_code_of_size_mem(cfg.dram_sizes@, dram);
        let di = choose|i: int|
            0 <= i < cfg.dram_sizes@.len() && (#[trigger] cfg.dram_sizes@[i]).0 == mc
                && cfg.dram_sizes@[i].1 == dram && cfg.dram_sizes@[i].0 != 'X';
        assert(upper_char(mc) == mc);
        lemma_assoc_find_unique(cfg.dram_sizes@, di);
        assert(assoc_find(cfg.dram_sizes@, upper_char(code[5])) == Some(dram));
    }
    // The package character.
    assert(code[6] == pkg && upper_char(code[6]) == pkg);
    // The chip-count character.
    assert(spec_chip_count(cc) == Some(chips as int));
}

/// The validity checks agree with codec success: generation succeeds
/// exactly when the three table checks pass, the date is encodable and the
/// memory size has a table character; a chip count that
/// `is_valid_chip_count` accepts always has an encoding; and every code
/// that parses has fields that pass all four validity checks.
pub proof fn lemma_validity_matches_codec(
    cfg: SnConfig,
    y: i32,
    m: u32,
    d: u32,
    pcb: u8,
    dram: i32,
    pkg: char,
    chips: u8,
    s: Seq<char>,
)
    requires
        cfg.wf(),
    ensures
        spec_generate(cfg, y, m, d, pcb, dram, pkg, chips) is Some <==> (assoc_find(
            cfg.pcb_sizes@,
            pcb,
        ) is Some && cfg.chip_count.min <= chips && chips <= cfg.chip_count.max && assoc_find(
            cfg.packages@,
            upper_char(pkg),
        ) is Some && spec_date_code(cfg, y as int, m as int, d as int) is Some && (dram == -1
            || spec_dram_code_of_size(cfg.dram_sizes@, dram) is Some)),
        cfg.chip_count.min <= chips && chips <= cfg.chip_count.max ==> spec_chip_char(
            chips as int,
        ) is Some,
        spec_parse(cfg, s) matches Some(p) ==> assoc_find(cfg.pcb_sizes@, p.3 as u8) is Some
            && assoc_find(cfg.dram_sizes@, upper_char(s[5])) is Some && assoc_find(
            cfg.packages@,
            upper_char(p.5),
        ) is Some && cfg.chip_count.min <= p.6 && p.6 <= cfg.chip_count.max,
{
    if let Some(p) = spec_parse(cfg, s) {
        assert(p.3 == digit_val(s[4]) && is_digit_char(s[4]));
        assert(p.5 == s[6]);
    }
}

/// Day offset 0 encodes to three copies of the smallest alphabet digit,
/// offset `radix^3 - 1` to three copies of the largest, and the offsets
/// just outside that window are rejected.
pub proof fn lemma_date_boundary(cfg: SnConfig, y: i32, m: u32, d: u32)
    requires
        cfg.wf(),
        valid_civil_date(y as int, m as int, d as int),
        valid_civil_date(
            cfg.base_date.year as int,
            cfg.base_date.month as int,
            cfg.base_date.day as int,
        ),
    ensures
        ({
            let alph = cfg.base32_chars@;
            let r = alph.len() as int;
            let n = day_number(y as int, m as int, d as int) - day_number(
                cfg.base_date.year as int,
                cfg.base_date.month as int,
                cfg.base_date.day as int,
            );
            &&& (n == 0 ==> spec_date_code(cfg, y as int, m as int, d as int) == Some(
                seq![alph[0], alph[0], alph[0]],
            ))
            &&& (n == r * r * r - 1 ==> spec_date_code(cfg, y as int, m as int, d as int)
                == Some(seq![alph[r - 1], alph[r - 1], alph[r - 1]]))
            &&& (n == -1 || n == r * r * r ==> spec_date_code(
                cfg,
                y as int,
                m as int,
                d as int,
            ) is None)
        }),
{
    let alph = cfg.base32_chars@;
    let r = alph.len() as int;
    let n = day_number(y as int, m as int, d as int) - day_number(
        cfg.base_date.year as int,
        cfg.base_date.month as int,
        cfg.base_date.day as int,
    );
    assert(r * r * r > 0) by (nonlinear_arith)
        requires
            r > 0,
    ;
    if n == 0 {
        assert(r * r > 0) by (nonlinear_arith)
            requires
                r > 0,
        ;
        lemma_fundamental_div_mod_converse(0, r * r, 0, 0);
        lemma_fundamental_div_mod_converse(0, r, 0, 0);
        assert(spec_encode3(0, alph) =~= seq![alph[0], alph[0], alph[0]]);
    }
    if n == r * r * r - 1 {
        assert(r * r > 0 && r * r * r - 1 == (r * r) * (r - 1) + (r * r - 1) && 0 <= r * r - 1 < r
            * r && r * r * r - 1 == r * (r * r - 1) + (r - 1) && r * r - 1 == r * (r - 1) + (r
            - 1)) by (nonlinear_arith)
            requires
                r > 0,
        ;
        lemma_fundamental_div_mod_converse(n, r * r, r - 1, r * r - 1);
        lemma_fundamental_div_mod_converse(n, r, r * r - 1, r - 1);
        lemma_fundamental_div_mod_converse(r * r - 1, r, r - 1, r - 1);
        assert(spec_encode3(n, alph) =~= seq![alph[r - 1], alph[r - 1], alph[r - 1]]);
    }
}

/// Upper-casing every character after the tag neither changes whether a
/// code parses nor any decoded field; only the package character is
/// reported as it was written.
pub proof fn lemma_parse_case_insensitive(cfg: SnConfig, s: Seq<char>, t: Seq<char>)
    requires
        cfg.wf(),
        t.len() == s.len(),
        s.len() > 0 ==> t[0] == s[0],
        forall|i: int| 1 <= i < s.len() ==> t[i] == upper_char(#[trigger] s[i]),
    ensures
        spec_parse(cfg, t) is Some <==> spec_parse(cfg, s) is Some,
        spec_parse(cfg, s) matches Some(p) ==> spec_parse(cfg, t) == Some(
            (p.0, p.1, p.2, p.3, p.4, upper_char(p.5), p.6),
        ),
{
    let alph = cfg.base32_chars@;
    if s.len() == 8 && s[0] == 'S' {
        lemma_alphabet_pos_upper(alph, s[1]);
        lemma_alphabet_pos_upper(alph, s[2]);
        lemma_alphabet_pos_upper(alph, s[3]);
        assert(t.subrange(1, 4) =~= seq![upper_char(s[1]), upper_char(s[2]), upper_char(s[3])]);
        assert(s.subrange(1, 4) =~= seq![s[1], s[2], s[3]]);
        assert(spec_decode3(t.subrange(1, 4), alph) == spec_decode3(s.subrange(1, 4), alph));
        crate::text::lemma_upper_idempotent(s[5]);
        crate::text::lemma_upper_idempotent(s[6]);
        assert(spec_chip_count(upper_char(s[7])) == spec_chip_count(s[7]));
    }
}

/// The memory sentinel on the decoding side: under a well-formed
/// configuration the reserved character, in either case, decodes to the
/// sentinel size -1. (On the encoding side, `dram_size_to_code` promises
/// `X` for size -1 whatever the table holds.)
pub proof fn lemma_memory_sentinel(cfg: SnConfig)
    requires
        cfg.wf(),
    ensures
        assoc_find(cfg.dram_sizes@, upper_char('X')) == Some(-1i32),
        assoc_find(cfg.dram_sizes@, upper_char('x')) == Some(-1i32),
{
    assert(upper_char('X') == 'X');
    assert(upper_char('x') == 'X');
}

} // verus!
