//! Log rotation: size thresholds, rotated-file naming, and the gzip
//! container for the rotated content.
//!
//! The decisions — which files have outgrown their limit — are computed
//! here from the observed sizes; the renames and writes are the
//! application's job.
use vstd::prelude::*;

use crate::config::LoggingConfig;
use crate::shims::deflate_of;
use crate::text::{all_digits, dec_digits, digits_val, parse_u64, str_trim, trimmed, u64_to_string};

verus! {

// ---------------------------------------------------------------------------
// Size strings
// ---------------------------------------------------------------------------
/// The value of the digits before a size suffix, or the suffix's default.
pub open spec fn size_component(num: Seq<char>, default: int, mult: int) -> int {
    let v = if num.len() > 0 && all_digits(num) && digits_val(num) <= u64::MAX {
        digits_val(num)
    } else {
        default
    };
    vstd::math::min(v * mult, u64::MAX as int)
}

/// Whether the trimmed size string carries the given suffix letter
/// (case-insensitively), followed by `B`/`b`.
pub open spec fn has_size_suffix(t: Seq<char>, upper: char, lower: char) -> bool {
    t.len() >= 2 && (t[t.len() - 2] == upper || t[t.len() - 2] == lower) && (t[t.len() - 1] == 'B'
        || t[t.len() - 1] == 'b')
}

/// The byte count a size string like `50MB`, `1GB` or `512KB` denotes.
/// Unsuffixed strings parse as bytes; anything unreadable falls back to
/// the suffix's default (or 50 MiB).
pub open spec fn parse_size_spec(s: Seq<char>) -> int {
    let t = trimmed(s);
    if has_size_suffix(t, 'G', 'g') {
        size_component(trimmed(t.take(t.len() - 2)), 1, (1024 * 1024 * 1024) as int)
    } else if has_size_suffix(t, 'M', 'm') {
        size_component(trimmed(t.take(t.len() - 2)), 50, (1024 * 1024) as int)
    } else if has_size_suffix(t, 'K', 'k') {
        size_component(trimmed(t.take(t.len() - 2)), 1024, 1024)
    } else {
        if t.len() > 0 && all_digits(t) && digits_val(t) <= u64::MAX {
            digits_val(t)
        } else {
            (50 * 1024 * 1024) as int
        }
    }
}

fn mul_capped(v: u64, mult: u64) -> (r: u64)
    requires
        mult > 0,
    ensures
        r == vstd::math::min(v * mult, u64::MAX as int),
{
    if v > u64::MAX / mult {
        proof {
            vstd::arithmetic::div_mod::lemma_fundamental_div_mod(u64::MAX as int, mult as int);
            assert(v * mult > u64::MAX) by (nonlinear_arith)
                requires
                    v > u64::MAX / mult,
                    mult > 0,
                    u64::MAX == (u64::MAX / mult) * mult + u64::MAX % mult,
                    u64::MAX % mult < mult,
            ;
        }
        u64::MAX
    } else {
        proof {
            vstd::arithmetic::div_mod::lemma_fundamental_div_mod(u64::MAX as int, mult as int);
            assert(v * mult <= u64::MAX) by (nonlinear_arith)
                requires
                    v <= u64::MAX / mult,
                    mult > 0,
                    u64::MAX == (u64::MAX / mult) * mult + u64::MAX % mult,
                    0 <= u64::MAX % mult,
            ;
        }
        v * mult
    }
}

/// Parse a size string like `50MB`, `1GB`, `512KB` into bytes.
pub fn parse_size(size_str: &str) -> (r: u64)
    ensures
        r == parse_size_spec(size_str@),
{
    let t = str_trim(size_str);
    let n = t.unicode_len();
    if n >= 2 {
        let c1 = t.get_char(n - 2);
        let c2 = t.get_char(n - 1);
        let b = c2 == 'B' || c2 == 'b';
        if b && (c1 == 'G' || c1 == 'g') {
            let num = str_trim(t.substring_char(0, n - 2));
            let v = match parse_u64(num) {
                Some(v) => v,
                None => 1,
            };
            return mul_capped(v, 1024 * 1024 * 1024);
        }
        if b && (c1 == 'M' || c1 == 'm') {
            let num = str_trim(t.substring_char(0, n - 2));
            let v = match parse_u64(num) {
                Some(v) => v,
                None => 50,
            };
            return mul_capped(v, 1024 * 1024);
        }
        if b && (c1 == 'K' || c1 == 'k') {
            let num = str_trim(t.substring_char(0, n - 2));
            let v = match parse_u64(num) {
                Some(v) => v,
                None => 1024,
            };
            return mul_capped(v, 1024);
        }
    }
    match parse_u64(t) {
        Some(v) => v,
        None => 50 * 1024 * 1024,
    }
}

/// The path of the `generation`-th rotated copy of `base`.
pub open spec fn rotated_path_chars(base: Seq<char>, generation: int, compressed: bool) -> Seq<
    char,
> {
    base + "."@ + dec_digits(generation) + (if compressed {
        ".gz"@
    } else {
        Seq::empty()
    })
}

/// Build the rotated file path: `base.N` or `base.N.gz`.
pub fn rotated_path(base: &str, generation: u32, compressed: bool) -> (r: String)
    ensures
        r@ == rotated_path_chars(base@, generation as int, compressed),
{
    let mut r = String::from_str(base).concat(".").concat(
        u64_to_string(generation as u64).as_str(),
    );
    if compressed {
        r = r.concat(".gz");
    }
    assert(r@ =~= rotated_path_chars(base@, generation as int, compressed));
    r
}

// ---------------------------------------------------------------------------
// CRC-32 and the gzip container
// ---------------------------------------------------------------------------
/// One shift-and-conditionally-xor round of the CRC-32 (IEEE) register.
pub open spec fn crc_round(c: u32) -> u32 {
    if c & 1 != 0 {
        (c >> 1) ^ 0xEDB88320u32
    } else {
        c >> 1
    }
}

/// `k` rounds.
pub open spec fn crc_rounds(c: u32, k: nat) -> u32
    decreases k,
{
    if k == 0 {
        c
    } else {
        crc_rounds(crc_round(c), (k - 1) as nat)
    }
}

/// The register after the first `n` input bytes.
pub open spec fn crc32_state(data: Seq<u8>, n: int) -> u32
    decreases n,
{
    if n <= 0 {
        0xFFFFFFFFu32
    } else {
        crc_rounds(crc32_state(data, n - 1) ^ (data[n - 1] as u32), 8)
    }
}

/// The CRC-32 (IEEE) checksum of the bytes.
pub open spec fn crc32_of(data: Seq<u8>) -> u32 {
    !crc32_state(data, data.len() as int)
}

/// Compute the CRC-32 (IEEE) checksum used in the gzip trailer.
pub fn crc32_simple(data: &Vec<u8>) -> (r: u32)
    ensures
        r == crc32_of(data@),
{
    let n = data.len();
    let mut crc: u32 = 0xFFFFFFFF;
    let mut i: usize = 0;
    while i < n
        invariant
            n == data@.len(),
            0 <= i <= n,
            crc == crc32_state(data@, i as int),
        decreases n - i,
    {
        crc = crc ^ (data[i] as u32);
        let ghost start = crc;
        let mut k: usize = 0;
        while k < 8
            invariant
                0 <= k <= 8,
                crc == crc_rounds(start, k as nat),
            decreases 8 - k,
        {
            proof {
                lemma_crc_rounds_step(start, k as nat);
            }
            if crc & 1 != 0 {
                crc = (crc >> 1) ^ 0xEDB88320;
            } else {
                crc = crc >> 1;
            }
            k = k + 1;
        }
        i = i + 1;
    }
    !crc
}

proof fn lemma_crc_rounds_step(c: u32, k: nat)
    ensures
        crc_rounds(c, k + 1) == crc_round(crc_rounds(c, k)),
    decreases k,
{
    assert(crc_rounds(c, k + 1) == crc_rounds(crc_round(c), k));
    if k == 0 {
        assert(crc_rounds(crc_round(c), 0) == crc_round(c));
        assert(crc_rounds(c, 0) == c);
    } else {
        lemma_crc_rounds_step(crc_round(c), (k - 1) as nat);
        assert(crc_rounds(c, k) == crc_rounds(crc_round(c), (k - 1) as nat));
    }
}

/// The little-endian bytes of a 32-bit value.
pub open spec fn le32(x: u32) -> Seq<u8> {
    seq![
        (x & 0xff) as u8,
        ((x >> 8) & 0xff) as u8,
        ((x >> 16) & 0xff) as u8,
        ((x >> 24) & 0xff) as u8,
    ]
}

/// The fixed minimal gzip header: deflate method, no flags, no mtime.
pub open spec fn gzip_header() -> Seq<u8> {
    seq![0x1fu8, 0x8bu8, 0x08u8, 0x00u8, 0x00u8, 0x00u8, 0x00u8, 0x00u8, 0x00u8, 0xffu8]
}

/// A gzip file around the deflate stream of `data`: header, compressed
/// bytes, the CRC-32 of the input, and its length modulo 2^32.
pub open spec fn gzip_wrapped(data: Seq<u8>) -> Seq<u8> {
    gzip_header() + deflate_of(data) + le32(crc32_of(data)) + le32(
        (data.len() % 0x1_0000_0000) as u32,
    )
}

/// Compress data into a minimal gzip container.
pub fn simple_compress(data: &Vec<u8>) -> (r: Vec<u8>)
    ensures
        r@ == gzip_wrapped(data@),
{
    let mut out: Vec<u8> = Vec::new();
    out.push(0x1f);
    out.push(0x8b);
    out.push(0x08);
    out.push(0x00);
    out.push(0x00);
    out.push(0x00);
    out.push(0x00);
    out.push(0x00);
    out.push(0x00);
    out.push(0xff);
    proof {
        assert(out@ =~= gzip_header());
    }
    let mut compressed = crate::shims::deflate_bytes(data);
    out.append(&mut compressed);
    let crc = crc32_simple(data);
    out.push((crc & 0xff) as u8);
    out.push(((crc >> 8) & 0xff) as u8);
    out.push(((crc >> 16) & 0xff) as u8);
    out.push(((crc >> 24) & 0xff) as u8);
    let len64 = data.len() as u64;
    let len32 = (len64 % 0x1_0000_0000u64) as u32;
    proof {
        assert(len32 == (data@.len() % 0x1_0000_0000) as u32);
    }
    out.push((len32 & 0xff) as u8);
    out.push(((len32 >> 8) & 0xff) as u8);
    out.push(((len32 >> 16) & 0xff) as u8);
    out.push(((len32 >> 24) & 0xff) as u8);
    proof {
        assert(out@ =~= gzip_wrapped(data@));
    }
    out
}

// ---------------------------------------------------------------------------
// The rotator
// ---------------------------------------------------------------------------
/// One file under rotation: its path, size limit in bytes, and how many
/// rotated generations to keep.
pub struct LogFileInfo {
    pub path: String,
    pub max_size: u64,
    pub max_files: u32,
    pub compress: bool,
}

/// What the application observed of one file under rotation.
pub struct FileCheck {
    pub exists: bool,
    pub size: u64,
    pub read_failed: bool,
}

#[derive(Debug)]
pub struct RotationStats {
    pub files_checked: u32,
    pub files_rotated: u32,
    pub errors: u32,
}

impl Default for RotationStats {
    fn default() -> (r: Self)
        ensures
            r.files_checked == 0,
            r.files_rotated == 0,
            r.errors == 0,
    {
        RotationStats { files_checked: 0, files_rotated: 0, errors: 0 }
    }
}

pub struct LogRotator {
    pub config: LoggingConfig,
    /// Monotonic seconds of the last rotation sweep.
    pub last_rotation: Option<u64>,
}

/// The size limit of the `i`-th rotation target: the supervisor's own log
/// first, then the managed files.
pub open spec fn target_size_spec(cfg: &LoggingConfig, i: int) -> int {
    if i == 0 {
        parse_size_spec(cfg.max_size@)
    } else {
        parse_size_spec(cfg.managed_logs.files@[i - 1].max_size@)
    }
}

/// Whether the `i`-th target must rotate, given what was observed of it.
pub open spec fn must_rotate(cfg: &LoggingConfig, checks: Seq<FileCheck>, i: int) -> bool {
    !checks[i].read_failed && checks[i].exists && checks[i].size >= target_size_spec(cfg, i)
}

/// Observed files without a read error, among the first `n`.
pub open spec fn count_checked(checks: Seq<FileCheck>, n: int) -> nat
    decreases n,
{
    if n <= 0 {
        0
    } else {
        count_checked(checks, n - 1) + (if !checks[n - 1].read_failed {
            1nat
        } else {
            0nat
        })
    }
}

/// Files that must rotate, among the first `n`.
pub open spec fn count_rotated(cfg: &LoggingConfig, checks: Seq<FileCheck>, n: int) -> nat
    decreases n,
{
    if n <= 0 {
        0
    } else {
        count_rotated(cfg, checks, n - 1) + (if must_rotate(cfg, checks, n - 1) {
            1nat
        } else {
            0nat
        })
    }
}

/// Files whose observation failed, among the first `n`.
pub open spec fn count_errors(checks: Seq<FileCheck>, n: int) -> nat
    decreases n,
{
    if n <= 0 {
        0
    } else {
        count_errors(checks, n - 1) + (if checks[n - 1].read_failed {
            1nat
        } else {
            0nat
        })
    }
}

impl LogRotator {
    pub fn new(config: LoggingConfig) -> (r: Self)
        ensures
            r.config == config,
            r.last_rotation is None,
    {
        LogRotator { config, last_rotation: None }
    }

    /// The files under rotation: the supervisor's own log, then the
    /// managed ones.
    pub fn rotation_targets(&self) -> (r: Vec<LogFileInfo>)
        ensures
            r@.len() == 1 + self.config.managed_logs.files@.len(),
            forall|i: int|
                0 <= i < r@.len() ==> (#[trigger] r@[i]).max_size == target_size_spec(
                    &self.config,
                    i,
                ) && r@[i].compress,
            r@[0].path@ == self.config.output@,
            r@[0].max_files == self.config.max_files,
            forall|i: int|
                1 <= i < r@.len() ==> (#[trigger] r@[i]).path@
                    == self.config.managed_logs.files@[i - 1].path@ && r@[i].max_files
                    == self.config.managed_logs.files@[i - 1].max_files,
    {
        let mut r: Vec<LogFileInfo> = Vec::new();
        r.push(
            LogFileInfo {
                path: self.config.output.clone(),
                max_size: parse_size(self.config.max_size.as_str()),
                max_files: self.config.max_files,
                compress: true,
            },
        );
        let n = self.config.managed_logs.files.len();
        let mut i: usize = 0;
        while i < n
            invariant
                n == self.config.managed_logs.files@.len(),
                0 <= i <= n,
                r@.len() == 1 + i,
                forall|k: int|
                    0 <= k < r@.len() ==> (#[trigger] r@[k]).max_size == target_size_spec(
                        &self.config,
                        k,
                    ) && r@[k].compress,
                r@[0].path@ == self.config.output@,
                r@[0].max_files == self.config.max_files,
                forall|k: int|
                    1 <= k < r@.len() ==> (#[trigger] r@[k]).path@
                        == self.config.managed_logs.files@[k - 1].path@ && r@[k].max_files
                        == self.config.managed_logs.files@[k - 1].max_files,
            decreases n - i,
        {
            let m = &self.config.managed_logs.files[i];
            r.push(
                LogFileInfo {
                    path: m.path.clone(),
                    max_size: parse_size(m.max_size.as_str()),
                    max_files: m.max_files,
                    compress: true,
                },
            );
            i = i + 1;
        }
        r
    }

    /// Decide which observed files must rotate and account for the sweep.
    /// The returned flags parallel `checks`; the application performs the
    /// renames and writes for the flagged files.
    pub fn rotate_if_needed(&mut self, checks: &Vec<FileCheck>, now: u64) -> (r: (
        RotationStats,
        Vec<bool>,
    ))
        requires
            checks@.len() <= u32::MAX,
            checks@.len() == 1 + old(self).config.managed_logs.files@.len(),
        ensures
            final(self).config == old(self).config,
            final(self).last_rotation == Some(now),
            r.1@.len() == checks@.len(),
            forall|i: int|
                0 <= i < checks@.len() ==> r.1@[i] == must_rotate(
                    &old(self).config,
                    checks@,
                    i,
                ),
            r.0.files_checked == count_checked(checks@, checks@.len() as int),
            r.0.files_rotated == count_rotated(&old(self).config, checks@, checks@.len() as int),
            r.0.errors == count_errors(checks@, checks@.len() as int),
    {
        let n = checks.len();
        let mut flags: Vec<bool> = Vec::new();
        let mut checked: u32 = 0;
        let mut rotated: u32 = 0;
        let mut errors: u32 = 0;
        let mut i: usize = 0;
        while i < n
            invariant
                n == checks@.len(),
                n <= u32::MAX,
                n == 1 + self.config.managed_logs.files@.len(),
                0 <= i <= n,
                self == old(self),
                flags@.len() == i,
                forall|k: int|
                    0 <= k < i ==> flags@[k] == must_rotate(&self.config, checks@, k),
                checked == count_checked(checks@, i as int),
                rotated == count_rotated(&self.config, checks@, i as int),
                errors == count_errors(checks@, i as int),
                checked <= i && rotated <= i && errors <= i,
            decreases n - i,
        {
            let c = &checks[i];
            let limit = if i == 0 {
                parse_size(self.config.max_size.as_str())
            } else {
                parse_size(self.config.managed_logs.files[i - 1].max_size.as_str())
            };
            let rotate = !c.read_failed && c.exists && c.size >= limit;
            flags.push(rotate);
            if c.read_failed {
                errors = errors + 1;
            } else {
                checked = checked + 1;
                if rotate {
                    rotated = rotated + 1;
                }
            }
            i = i + 1;
        }
        self.last_rotation = Some(now);
        (RotationStats { files_checked: checked, files_rotated: rotated, errors }, flags)
    }

    /// Whether the rotation interval has passed since the last sweep.
    pub fn should_check(&self, now: u64, interval_secs: u64) -> (r: bool)
        ensures
            self.last_rotation is None ==> r,
            self.last_rotation matches Some(last) ==> r == (now >= last && now - last
                >= interval_secs),
    {
        match self.last_rotation {
            Some(last) => now >= last && now - last >= interval_secs,
            None => true,
        }
    }
}

} // verus!
