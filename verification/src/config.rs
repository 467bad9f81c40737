//! The configuration store: epoch date, base-N alphabet, lookup tables for
//! board sizes, memory sizes and packages, and the valid chip-count range.
//! Constructed once from static data, validated, and never mutated.

use vstd::prelude::*;
use vstd::string::*;
use crate::error::SnError;
use crate::text::{int_rep, dec_rep, upper_char, to_upper_char, push_u64_dec, push_i32_dec};

verus! {

/// The epoch: the reference date from which date codes are measured.
#[derive(Debug, Clone, Copy)]
pub struct BaseDate {
    pub year: i32,
    pub month: u32,
    pub day: u32,
}

/// The inclusive range of valid chip counts.
#[derive(Debug, Clone, Copy)]
pub struct ChipCount {
    pub min: u8,
    pub max: u8,
}

/// The immutable configuration of both codecs. The lookup tables are
/// association lists with pairwise distinct keys.
#[derive(Debug, Clone)]
pub struct SnConfig {
    pub base_date: BaseDate,
    pub base32_chars: String,
    pub pcb_sizes: Vec<(u8, String)>,
    pub dram_sizes: Vec<(char, i32)>,
    pub packages: Vec<(char, String)>,
    pub chip_count: ChipCount,
    pub sn_format: String,
}

/// The value under the first occurrence of key `k`, as a map-style lookup on
/// an association list.
pub open spec fn assoc_find<K, V>(s: Seq<(K, V)>, k: K) -> Option<V>
    decreases s.len(),
{
    if s.len() == 0 {
        None
    } else if s[0].0 == k {
        Some(s[0].1)
    } else {
        assoc_find(s.subrange(1, s.len() as int), k)
    }
}

pub open spec fn assoc_keys_distinct<K, V>(s: Seq<(K, V)>) -> bool {
    forall|i: int, j: int| 0 <= i < j < s.len() ==> (#[trigger] s[i]).0 != (#[trigger] s[j]).0
}

/// Unrolls `assoc_find` to the first index whose key matches, if any.
pub proof fn lemma_assoc_find_at<K, V>(s: Seq<(K, V)>, k: K, i: int)
    requires
        0 <= i <= s.len(),
        forall|j: int| 0 <= j < i ==> (#[trigger] s[j]).0 != k,
    ensures
        i < s.len() && s[i].0 == k ==> assoc_find(s, k) == Some(s[i].1),
        i == s.len() ==> assoc_find(s, k) is None,
    decreases i + 1,
{
    if i == 0 {
        if 0 < s.len() && s[0].0 == k {
        } else if s.len() == 0 {
        }
    } else {
        let t = s.subrange(1, s.len() as int);
        lemma_assoc_find_at(t, k, i - 1);
        assert(s[0].0 != k);
        if i < s.len() {
            assert(t[i - 1] == s[i]);
        }
    }
}

/// A successful lookup names the value of some entry with that key.
pub proof fn lemma_assoc_find_mem<K, V>(s: Seq<(K, V)>, k: K)
    requires
        assoc_find(s, k) is Some,
    ensures
        exists|i: int|
            0 <= i < s.len() && (#[trigger] s[i]).0 == k && s[i].1 == assoc_find(s, k).unwrap(),
    decreases s.len(),
{
    if s.len() > 0 && s[0].0 != k {
        let t = s.subrange(1, s.len() as int);
        lemma_assoc_find_mem(t, k);
        let i = choose|i: int| 0 <= i < t.len() && (#[trigger] t[i]).0 == k && t[i].1 == assoc_find(
            t,
            k,
        ).unwrap();
        assert(s[i + 1] == t[i]);
    }
}

/// A matching entry in a list with distinct keys is the one that
/// `assoc_find` returns.
pub proof fn lemma_assoc_find_unique<K, V>(s: Seq<(K, V)>, i: int)
    requires
        assoc_keys_distinct(s),
        0 <= i < s.len(),
    ensures
        assoc_find(s, s[i].0) == Some(s[i].1),
{
    assert(forall|j: int| 0 <= j < i ==> (#[trigger] s[j]).0 != s[i].0);
    lemma_assoc_find_at(s, s[i].0, i);
}

impl SnConfig {
    /// Well-formedness: what the static configuration data guarantees and
    /// the codec proofs lean on. All tables are non-empty with distinct
    /// keys; the alphabet characters are distinct, already uppercase, and
    /// few enough that a three-digit value fits a 64-bit integer; board
    /// size keys are single decimal digits; the memory table's keys are
    /// uppercase and its reserved sentinel character maps to the sentinel
    /// value; the chip-count range lies within 1 to 16.
    pub open spec fn wf(self) -> bool {
        &&& 1 <= self.base32_chars@.len() < 0x200000
        &&& (forall|i: int, j: int|
            0 <= i < j < self.base32_chars@.len() ==> self.base32_chars@[i]
                != self.base32_chars@[j])
        &&& (forall|i: int|
            0 <= i < self.base32_chars@.len() ==> upper_char(#[trigger] self.base32_chars@[i])
                == self.base32_chars@[i])
        &&& self.pcb_sizes@.len() > 0
        &&& assoc_keys_distinct(self.pcb_sizes@)
        &&& (forall|i: int|
            0 <= i < self.pcb_sizes@.len() ==> (#[trigger] self.pcb_sizes@[i]).0 <= 9)
        &&& self.dram_sizes@.len() > 0
        &&& assoc_keys_distinct(self.dram_sizes@)
        &&& (forall|i: int|
            0 <= i < self.dram_sizes@.len() ==> upper_char((#[trigger] self.dram_sizes@[i]).0)
                == self.dram_sizes@[i].0)
        &&& assoc_find(self.dram_sizes@, 'X') == Some(-1i32)
        &&& self.packages@.len() > 0
        &&& assoc_keys_distinct(self.packages@)
        &&& (forall|i: int|
            0 <= i < self.packages@.len() ==> upper_char((#[trigger] self.packages@[i]).0)
                == self.packages@[i].0)
        &&& 1 <= self.chip_count.min
        &&& self.chip_count.min <= self.chip_count.max
        &&& self.chip_count.max <= 16
    }

    /// Builds the default configuration from static data.
    pub fn new() -> (r: Result<Self, SnError>)
        ensures
            r matches Ok(c) && c.wf(),
            r matches Ok(c) ==> c.base_date.year == 2025 && c.base_date.month == 1
                && c.base_date.day == 1 && c.base32_chars@
                == "0123456789ABCDEFGHJKMNPQRSTVWXYZ"@ && c.chip_count.min == 1
                && c.chip_count.max == 16,
            r matches Ok(c) ==> c.pcb_sizes@.len() == 4 && c.pcb_sizes@[0].0 == 1
                && c.pcb_sizes@[0].1@ == "2280"@ && c.pcb_sizes@[1].0 == 2 && c.pcb_sizes@[1].1@
                == "2242"@ && c.pcb_sizes@[2].0 == 3 && c.pcb_sizes@[2].1@ == "2230"@
                && c.pcb_sizes@[3].0 == 4 && c.pcb_sizes@[3].1@ == "22110"@,
            r matches Ok(c) ==> c.dram_sizes@ == seq![
                ('X', -1i32),
                ('A', 128i32),
                ('B', 256i32),
                ('C', 512i32),
                ('D', 1024i32),
                ('E', 2048i32),
                ('F', 4096i32),
                ('G', 8192i32),
            ],
            r matches Ok(c) ==> c.packages@.len() == 3 && c.packages@[0].0 == 'A'
                && c.packages@[0].1@ == "BGA316"@ && c.packages@[1].0 == 'B' && c.packages@[1].1@
                == "BGA272"@ && c.packages@[2].0 == 'C' && c.packages@[2].1@ == "TSOP48"@,
            r matches Ok(c) ==> c.sn_format@
                == "S + 日期编码(3) + PCB尺寸(1) + DRAM大小(1) + 封装(1) + 颗粒数(1)"@,
    {
        let base32 = String::from_str("0123456789ABCDEFGHJKMNPQRSTVWXYZ");
        proof {
            reveal_strlit("0123456789ABCDEFGHJKMNPQRSTVWXYZ");
        }
        let mut pcb_sizes: Vec<(u8, String)> = Vec::new();
        pcb_sizes.push((1, String::from_str("2280")));
        pcb_sizes.push((2, String::from_str("2242")));
        pcb_sizes.push((3, String::from_str("2230")));
        pcb_sizes.push((4, String::from_str("22110")));
        let mut dram_sizes: Vec<(char, i32)> = Vec::new();
        dram_sizes.push(('X', -1));
        dram_sizes.push(('A', 128));
        dram_sizes.push(('B', 256));
        dram_sizes.push(('C', 512));
        dram_sizes.push(('D', 1024));
        dram_sizes.push(('E', 2048));
        dram_sizes.push(('F', 4096));
        dram_sizes.push(('G', 8192));
        let mut packages: Vec<(char, String)> = Vec::new();
        packages.push(('A', String::from_str("BGA316")));
        packages.push(('B', String::from_str("BGA272")));
        packages.push(('C', String::from_str("TSOP48")));
        let config = SnConfig {
            base_date: BaseDate { year: 2025, month: 1, day: 1 },
            base32_chars: base32,
            pcb_sizes,
            dram_sizes,
            packages,
            chip_count: ChipCount { min: 1, max: 16 },
            sn_format: String::from_str(
                "S + 日期编码(3) + PCB尺寸(1) + DRAM大小(1) + 封装(1) + 颗粒数(1)",
            ),
        };
        proof {
            assert(assoc_find(config.dram_sizes@, 'X') == Some(-1i32));
            assert(config.dram_sizes@ =~= seq![
                ('X', -1i32),
                ('A', 128i32),
                ('B', 256i32),
                ('C', 512i32),
                ('D', 1024i32),
                ('E', 2048i32),
                ('F', 4096i32),
                ('G', 8192i32),
            ]);
        }
        Ok(config)
    }

    /// Checks the startup invariants: non-empty tables and a sane
    /// chip-count range, in that order, reporting the first violation.
    pub fn validate(&self) -> (r: Result<(), SnError>)
        ensures
            r is Ok <==> self.base32_chars@.len() > 0 && self.pcb_sizes@.len() > 0
                && self.dram_sizes@.len() > 0 && self.packages@.len() > 0 && self.chip_count.min
                <= self.chip_count.max,
            r matches Err(e) ==> e matches SnError::ConfigError(m) && m@ == (
            if self.base32_chars@.len() == 0 {
                "Base32字符集不能为空"@
            } else if self.pcb_sizes@.len() == 0 {
                "PCB尺寸定义不能为空"@
            } else if self.dram_sizes@.len() == 0 {
                "DRAM大小定义不能为空"@
            } else if self.packages@.len() == 0 {
                "封装定义不能为空"@
            } else {
                "颗粒数量范围无效"@
            }),
    {
        if self.base32_chars.as_str().unicode_len() == 0 {
            return Err(SnError::ConfigError(String::from_str("Base32字符集不能为空")));
        }
        if self.pcb_sizes.len() == 0 {
            return Err(SnError::ConfigError(String::from_str("PCB尺寸定义不能为空")));
        }
        if self.dram_sizes.len() == 0 {
            return Err(SnError::ConfigError(String::from_str("DRAM大小定义不能为空")));
        }
        if self.packages.len() == 0 {
            return Err(SnError::ConfigError(String::from_str("封装定义不能为空")));
        }
        if self.chip_count.min > self.chip_count.max {
            return Err(SnError::ConfigError(String::from_str("颗粒数量范围无效")));
        }
        Ok(())
    }

    /// Whether `size` is a key of the board-size table.
    pub fn is_valid_pcb_size(&self, size: u8) -> (r: bool)
        ensures
            r == (assoc_find(self.pcb_sizes@, size) is Some),
    {
        let n = self.pcb_sizes.len();
        let mut i: usize = 0;
        while i < n
            invariant
                0 <= i <= n,
                n == self.pcb_sizes@.len(),
                forall|j: int| 0 <= j < i ==> (#[trigger] self.pcb_sizes@[j]).0 != size,
            decreases n - i,
        {
            if self.pcb_sizes[i].0 == size {
                proof {
                    lemma_assoc_find_at(self.pcb_sizes@, size, i as int);
                }
                return true;
            }
            i = i + 1;
        }
        proof {
            lemma_assoc_find_at(self.pcb_sizes@, size, n as int);
        }
        false
    }

    /// Whether `code`, upper-cased, is a key of the memory-size table.
    pub fn is_valid_dram_code(&self, code: char) -> (r: bool)
        ensures
            r == (assoc_find(self.dram_sizes@, upper_char(code)) is Some),
    {
        self.dram_lookup(code).is_some()
    }

    /// The memory size under `code`, upper-cased, if any.
    pub fn dram_lookup(&self, code: char) -> (r: Option<i32>)
        ensures
            r == assoc_find(self.dram_sizes@, upper_char(code)),
    {
        let key = to_upper_char(code);
        let n = self.dram_sizes.len();
        let mut i: usize = 0;
        while i < n
            invariant
                0 <= i <= n,
                n == self.dram_sizes@.len(),
                key == upper_char(code),
                forall|j: int| 0 <= j < i ==> (#[trigger] self.dram_sizes@[j]).0 != key,
            decreases n - i,
        {
            if self.dram_sizes[i].0 == key {
                proof {
                    lemma_assoc_find_at(self.dram_sizes@, key, i as int);
                }
                return Some(self.dram_sizes[i].1);
            }
            i = i + 1;
        }
        proof {
            lemma_assoc_find_at(self.dram_sizes@, key, n as int);
        }
        None
    }

    /// Whether `code`, upper-cased, is a key of the package table.
    pub fn is_valid_package(&self, code: char) -> (r: bool)
        ensures
            r == (assoc_find(self.packages@, upper_char(code)) is Some),
    {
        let key = to_upper_char(code);
        let n = self.packages.len();
        let mut i: usize = 0;
        while i < n
            invariant
                0 <= i <= n,
                n == self.packages@.len(),
                key == upper_char(code),
                forall|j: int| 0 <= j < i ==> (#[trigger] self.packages@[j]).0 != key,
            decreases n - i,
        {
            if self.packages[i].0 == key {
                proof {
                    lemma_assoc_find_at(self.packages@, key, i as int);
                }
                return true;
            }
            i = i + 1;
        }
        proof {
            lemma_assoc_find_at(self.packages@, key, n as int);
        }
        false
    }

    /// The name of a board size, or a placeholder for an unknown one.
    pub fn get_pcb_size_name(&self, size: u8) -> (r: String)
        ensures
            r@ == match assoc_find(self.pcb_sizes@, size) {
                Some(name) => name@,
                None => "未知尺寸"@,
            },
    {
        let n = self.pcb_sizes.len();
        let mut i: usize = 0;
        while i < n
            invariant
                0 <= i <= n,
                n == self.pcb_sizes@.len(),
                forall|j: int| 0 <= j < i ==> (#[trigger] self.pcb_sizes@[j]).0 != size,
            decreases n - i,
        {
            if self.pcb_sizes[i].0 == size {
                proof {
                    lemma_assoc_find_at(self.pcb_sizes@, size, i as int);
                }
                return self.pcb_sizes[i].1.clone();
            }
            i = i + 1;
        }
        proof {
            lemma_assoc_find_at(self.pcb_sizes@, size, n as int);
        }
        String::from_str("未知尺寸")
    }

    /// A human-readable description of the memory size under `code`: the
    /// sentinel reads `DRAMLess`, sizes below 1024 in megabytes, larger
    /// sizes in whole gigabytes.
    pub fn get_dram_size_desc(&self, code: char) -> (r: String)
        ensures
            r@ == match assoc_find(self.dram_sizes@, upper_char(code)) {
                Some(v) => if v == -1 {
                    "DRAMLess"@
                } else if v < 1024 {
                    int_rep(v as int) + "MB"@
                } else {
                    int_rep(v as int / 1024) + "GB"@
                },
                None => "未知大小"@,
            },
    {
        match self.dram_lookup(code) {
            Some(v) => {
                if v == -1 {
                    String::from_str("DRAMLess")
                } else if v < 1024 {
                    let mut s = String::new();
                    push_i32_dec(&mut s, v);
                    s.append("MB");
                    s
                } else {
                    let mut s = String::new();
                    push_i32_dec(&mut s, v / 1024);
                    s.append("GB");
                    s
                }
            },
            None => String::from_str("未知大小"),
        }
    }

    /// The name of a package code, or a placeholder for an unknown one.
    pub fn get_package_name(&self, code: char) -> (r: String)
        ensures
            r@ == match assoc_find(self.packages@, upper_char(code)) {
                Some(name) => name@,
                None => "未知封装"@,
            },
    {
        let key = to_upper_char(code);
        let n = self.packages.len();
        let mut i: usize = 0;
        while i < n
            invariant
                0 <= i <= n,
                n == self.packages@.len(),
                key == upper_char(code),
                forall|j: int| 0 <= j < i ==> (#[trigger] self.packages@[j]).0 != key,
            decreases n - i,
        {
            if self.packages[i].0 == key {
                proof {
                    lemma_assoc_find_at(self.packages@, key, i as int);
                }
                return self.packages[i].1.clone();
            }
            i = i + 1;
        }
        proof {
            lemma_assoc_find_at(self.packages@, key, n as int);
        }
        String::from_str("未知封装")
    }

    /// A textual summary of the configuration: epoch, table sizes,
    /// chip-count range and code format.
    pub fn get_config_info(&self) -> (r: String)
        ensures
            r@ == "配置信息:\n  基准日期: "@ + int_rep(self.base_date.year as int) + "-"@
                + dec_rep(self.base_date.month as int) + "-"@ + dec_rep(self.base_date.day as int)
                + "\n  PCB尺寸: "@ + dec_rep(self.pcb_sizes@.len() as int) + " 种\n  DRAM大小: "@
                + dec_rep(self.dram_sizes@.len() as int) + " 种\n  封装类型: "@ + dec_rep(
                self.packages@.len() as int,
            ) + " 种\n  颗粒数量范围: "@ + dec_rep(self.chip_count.min as int) + " - "@
                + dec_rep(self.chip_count.max as int) + " (1-F/G)\n  SN码格式: "@
                + self.sn_format@,
    {
        let mut s = String::from_str("配置信息:\n  基准日期: ");
        push_i32_dec(&mut s, self.base_date.year);
        s.append("-");
        push_u64_dec(&mut s, self.base_date.month as u64);
        s.append("-");
        push_u64_dec(&mut s, self.base_date.day as u64);
        s.append("\n  PCB尺寸: ");
        push_u64_dec(&mut s, self.pcb_sizes.len() as u64);
        s.append(" 种\n  DRAM大小: ");
        push_u64_dec(&mut s, self.dram_sizes.len() as u64);
        s.append(" 种\n  封装类型: ");
        push_u64_dec(&mut s, self.packages.len() as u64);
        s.append(" 种\n  颗粒数量范围: ");
        push_u64_dec(&mut s, self.chip_count.min as u64);
        s.append(" - ");
        push_u64_dec(&mut s, self.chip_count.max as u64);
        s.append(" (1-F/G)\n  SN码格式: ");
        s.append(self.sn_format.as_str());
        s
    }

    /// Whether `count` lies in the configured inclusive chip-count range.
    pub fn is_valid_chip_count(&self, count: u8) -> (r: bool)
        ensures
            r == (self.chip_count.min <= count && count <= self.chip_count.max),
    {
        count >= self.chip_count.min && count <= self.chip_count.max
    }
}

} // verus!
