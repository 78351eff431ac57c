//! Host-wide memory counters: a one-pass parse of `meminfo`-style
//! key/value text and the derived totals.

use vstd::prelude::*;
use vstd::string::StringSliceAdditionalSpecFns;

use crate::Error;
use crate::utils::clip;
use crate::utils::eq_range;
use crate::utils::find_line_brk;
use crate::utils::find_token_end;
use crate::utils::lemma_line_brk;
use crate::utils::line_brk;
use crate::utils::line_u64;
use crate::utils::parse_digit_run;
use crate::utils::skip_spaces;
use crate::utils::sub_floor;
use crate::utils::tok1;
use crate::utils::tok2;
use crate::utils::tok_u64;

verus! {

/// The keys a host memory report is read by.  `Zswap:` holds the
/// compressed size and `Zswapped:` the original size of the pages
/// the kernel keeps compressed.
pub open spec fn is_mem_key(t: Seq<u8>) -> bool {
    ||| t == "MemTotal:".spec_bytes()
    ||| t == "MemFree:".spec_bytes()
    ||| t == "MemAvailable:".spec_bytes()
    ||| t == "MemUsed:".spec_bytes()
    ||| t == "Shmem:".spec_bytes()
    ||| t == "Buffers:".spec_bytes()
    ||| t == "Cached:".spec_bytes()
    ||| t == "SwapTotal:".spec_bytes()
    ||| t == "SwapFree:".spec_bytes()
    ||| t == "Zswap:".spec_bytes()
    ||| t == "Zswapped:".spec_bytes()
    ||| t == "SwapCached:".spec_bytes()
}

/// What is wrong with one line of a host memory report, if anything:
/// every line must carry at least a key and a value token, and the
/// value of a recognized key must be a decimal number.
pub open spec fn line_err(l: Seq<u8>) -> Option<Error> {
    if tok1(l).len() == 0 || tok2(l).len() == 0 {
        Some(Error::BadFormat)
    } else if is_mem_key(tok1(l)) && tok_u64(tok2(l)) is None {
        Some(Error::BadNumber)
    } else {
        None
    }
}

/// The first error in the lines of `s` at or after `from`, if any.
pub open spec fn mm_err_from(s: Seq<u8>, from: int) -> Option<Error>
    decreases s.len() - from
        when 0 <= from <= s.len()
{
    if from >= s.len() {
        None
    } else {
        let e = line_brk(s, from);
        proof {
            lemma_line_brk(s, from);
        }
        let l = s.subrange(from, e);
        if line_err(l) is Some {
            line_err(l)
        } else {
            mm_err_from(s, if e >= s.len() { s.len() as int } else { e + 1 })
        }
    }
}

/// A host memory report parses as a whole exactly when no line is in
/// error.
pub open spec fn mm_ok(s: Seq<u8>) -> bool {
    mm_err_from(s, 0) is None
}

/// The value the one-pass scan leaves for `key` after reading the
/// lines of `s` at or after `from`, starting from `cur`: the last
/// line whose first token is `key` wins.
pub open spec fn mem_field_from(s: Seq<u8>, from: int, key: Seq<u8>, cur: u64) -> u64
    decreases s.len() - from
        when 0 <= from <= s.len()
{
    if from >= s.len() {
        cur
    } else {
        let e = line_brk(s, from);
        proof {
            lemma_line_brk(s, from);
        }
        let l = s.subrange(from, e);
        mem_field_from(
            s,
            if e >= s.len() {
                s.len() as int
            } else {
                e + 1
            },
            key,
            if tok1(l) == key {
                line_u64(l)
            } else {
                cur
            },
        )
    }
}

/// The value a full parse of `s` reports for `key`: the last
/// occurrence wins, and a key that never occurs is 0.
pub open spec fn mem_field(s: Seq<u8>, key: Seq<u8>) -> u64 {
    mem_field_from(s, 0, key, 0)
}

/// Compression ratio in thousandths: original size over compressed
/// size, and 0 -- a defined sentinel, not an arithmetic fault -- when
/// nothing is compressed.
pub open spec fn ratio_permille(z: u64, c: u64) -> u64 {
    if c == 0 {
        0
    } else {
        clip(z * 1000 / c as int)
    }
}

/// Host-wide memory counters, all in kB except the ratio.  The raw
/// fields come straight from a `meminfo`-style report; the derived
/// fields follow from them as the `update` contract states.
#[derive(Clone, Copy)]
pub struct MemoryStats {
    pub total: u64,
    pub free: u64,
    pub available: u64,
    pub used: u64,
    pub shared: u64,
    pub buffers: u64,
    pub cached: u64,
    pub swap_total: u64,
    pub swap_free: u64,
    pub zswap: u64,
    pub zswap_compressed: u64,
    pub swap_cached: u64,
    /// Compression ratio in thousandths (`zswap / zswap_compressed`);
    /// 0 when `zswap_compressed` is 0.
    pub compression_ratio_permille: u64,
    pub swap_used: u64,
    pub swap_available: u64,
    pub totalvmem: u64,
    pub freevmem: u64,
    pub usedvmem: u64,
    pub availablevmem: u64,
    pub swap_on_disk: u64,
}

impl MemoryStats {
    /// All counters zero.
    pub open spec fn is_zeroed(&self) -> bool {
        &&& self.total == 0
        &&& self.free == 0
        &&& self.available == 0
        &&& self.used == 0
        &&& self.shared == 0
        &&& self.buffers == 0
        &&& self.cached == 0
        &&& self.swap_total == 0
        &&& self.swap_free == 0
        &&& self.zswap == 0
        &&& self.zswap_compressed == 0
        &&& self.swap_cached == 0
        &&& self.compression_ratio_permille == 0
        &&& self.swap_used == 0
        &&& self.swap_available == 0
        &&& self.totalvmem == 0
        &&& self.freevmem == 0
        &&& self.usedvmem == 0
        &&& self.availablevmem == 0
        &&& self.swap_on_disk == 0
    }

    /// A fresh, all-zero set of counters.
    pub fn new() -> (r: Self)
        ensures
            r.is_zeroed(),
    {
        MemoryStats {
            total: 0,
            free: 0,
            available: 0,
            used: 0,
            shared: 0,
            buffers: 0,
            cached: 0,
            swap_total: 0,
            swap_free: 0,
            zswap: 0,
            zswap_compressed: 0,
            swap_cached: 0,
            compression_ratio_permille: 0,
            swap_used: 0,
            swap_available: 0,
            totalvmem: 0,
            freevmem: 0,
            usedvmem: 0,
            availablevmem: 0,
            swap_on_disk: 0,
        }
    }
}

impl MemoryStats {
    /// One pass over a host memory report (`meminfo`-style text):
    /// every line must hold a key token and a value token; recognized
    /// keys take the value of their last occurrence, unrecognized
    /// lines are ignored, missing keys stay 0; the derived counters
    /// follow.  A malformed line fails the whole parse and leaves the
    /// counters untouched.
    pub fn update(&mut self, contents: &[u8]) -> (r: Result<(), Error>)
        ensures
            match r {
                Ok(()) => {
                    &&& mm_ok(contents@)
                    &&& final(self).total == mem_field(contents@, "MemTotal:".spec_bytes())
                    &&& final(self).free == mem_field(contents@, "MemFree:".spec_bytes())
                    &&& final(self).available == mem_field(
                        contents@,
                        "MemAvailable:".spec_bytes(),
                    )
                    &&& final(self).shared == mem_field(contents@, "Shmem:".spec_bytes())
                    &&& final(self).buffers == mem_field(contents@, "Buffers:".spec_bytes())
                    &&& final(self).cached == mem_field(contents@, "Cached:".spec_bytes())
                    &&& final(self).swap_total == mem_field(contents@, "SwapTotal:".spec_bytes())
                    &&& final(self).swap_free == mem_field(contents@, "SwapFree:".spec_bytes())
                    &&& final(self).zswap_compressed == mem_field(
                        contents@,
                        "Zswap:".spec_bytes(),
                    )
                    &&& final(self).zswap == mem_field(contents@, "Zswapped:".spec_bytes())
                    &&& final(self).swap_cached == mem_field(contents@, "SwapCached:".spec_bytes())
                    &&& final(self).used as int == sub_floor(
                        final(self).total as int,
                        final(self).free + final(self).buffers + final(self).cached,
                    )
                    &&& final(self).total >= final(self).free + final(self).buffers
                        + final(self).cached ==> final(self).used == final(self).total
                        - final(self).free - final(self).buffers - final(self).cached
                    &&& final(self).swap_used as int == sub_floor(
                        final(self).swap_total as int,
                        final(self).swap_free as int,
                    )
                    &&& final(self).swap_available as int == sub_floor(
                        final(self).swap_total as int,
                        final(self).swap_used as int,
                    )
                    &&& final(self).compression_ratio_permille == ratio_permille(
                        final(self).zswap,
                        final(self).zswap_compressed,
                    )
                    &&& final(self).zswap_compressed == 0 ==> final(self).compression_ratio_permille == 0
                    &&& final(self).totalvmem == clip(
                        final(self).total + final(self).swap_total,
                    )
                    &&& final(self).freevmem == clip(final(self).free + final(self).swap_free)
                    &&& final(self).usedvmem == clip(final(self).used + final(self).swap_used)
                    &&& final(self).availablevmem == clip(
                        final(self).available + final(self).swap_available,
                    )
                    &&& final(self).swap_on_disk as int == sub_floor(
                        final(self).swap_used as int,
                        final(self).zswap as int,
                    )
                },
                Err(e) => {
                    &&& mm_err_from(contents@, 0) == Some(e)
                    &&& *final(self) == *old(self)
                },
            },
    {
        let n = contents.len();
        let mut pos: usize = 0;
        let mut total: u64 = 0;
        let mut free: u64 = 0;
        let mut available: u64 = 0;
        let mut shared: u64 = 0;
        let mut buffers: u64 = 0;
        let mut cached: u64 = 0;
        let mut swap_total: u64 = 0;
        let mut swap_free: u64 = 0;
        let mut zswap_compressed: u64 = 0;
        let mut zswap: u64 = 0;
        let mut swap_cached: u64 = 0;
        while pos < n
            invariant
                pos <= n,
                n == contents@.len(),
                mm_err_from(contents@, 0) == mm_err_from(contents@, pos as int),
                mem_field(contents@, "MemTotal:".spec_bytes()) == mem_field_from(
                    contents@,
                    pos as int,
                    "MemTotal:".spec_bytes(),
                    total,
                ),
                mem_field(contents@, "MemFree:".spec_bytes()) == mem_field_from(
                    contents@,
                    pos as int,
                    "MemFree:".spec_bytes(),
                    free,
                ),
                mem_field(contents@, "MemAvailable:".spec_bytes()) == mem_field_from(
                    contents@,
                    pos as int,
                    "MemAvailable:".spec_bytes(),
                    available,
                ),
                mem_field(contents@, "Shmem:".spec_bytes()) == mem_field_from(
                    contents@,
                    pos as int,
                    "Shmem:".spec_bytes(),
                    shared,
                ),
                mem_field(contents@, "Buffers:".spec_bytes()) == mem_field_from(
                    contents@,
                    pos as int,
                    "Buffers:".spec_bytes(),
                    buffers,
                ),
                mem_field(contents@, "Cached:".spec_bytes()) == mem_field_from(
                    contents@,
                    pos as int,
                    "Cached:".spec_bytes(),
                    cached,
                ),
                mem_field(contents@, "SwapTotal:".spec_bytes()) == mem_field_from(
                    contents@,
                    pos as int,
                    "SwapTotal:".spec_bytes(),
                    swap_total,
                ),
                mem_field(contents@, "SwapFree:".spec_bytes()) == mem_field_from(
                    contents@,
                    pos as int,
                    "SwapFree:".spec_bytes(),
                    swap_free,
                ),
                mem_field(contents@, "Zswap:".spec_bytes()) == mem_field_from(
                    contents@,
                    pos as int,
                    "Zswap:".spec_bytes(),
                    zswap_compressed,
                ),
                mem_field(contents@, "Zswapped:".spec_bytes()) == mem_field_from(
                    contents@,
                    pos as int,
                    "Zswapped:".spec_bytes(),
                    zswap,
                ),
                mem_field(contents@, "SwapCached:".spec_bytes()) == mem_field_from(
                    contents@,
                    pos as int,
                    "SwapCached:".spec_bytes(),
                    swap_cached,
                ),
            decreases n - pos,
        {
            let e = find_line_brk(contents, pos);
            let line = &contents[pos..e];
            let ghost l = contents@.subrange(pos as int, e as int);
            let a1 = skip_spaces(line, 0);
            let b1 = find_token_end(line, a1);
            let a2 = skip_spaces(line, b1);
            let b2 = find_token_end(line, a2);
            proof {
                assert(tok1(l) == l.subrange(a1 as int, b1 as int));
                assert(tok2(l) == l.subrange(a2 as int, b2 as int));
            }
            if a1 == b1 || a2 == b2 {
                proof {
                    assert(line_err(l) == Some(Error::BadFormat));
                }
                return Err(Error::BadFormat);
            }
            let m_total = eq_range(line, a1, b1, "MemTotal:".as_bytes());
            let m_free = eq_range(line, a1, b1, "MemFree:".as_bytes());
            let m_available = eq_range(line, a1, b1, "MemAvailable:".as_bytes());
            let m_used = eq_range(line, a1, b1, "MemUsed:".as_bytes());
            let m_shared = eq_range(line, a1, b1, "Shmem:".as_bytes());
            let m_buffers = eq_range(line, a1, b1, "Buffers:".as_bytes());
            let m_cached = eq_range(line, a1, b1, "Cached:".as_bytes());
            let m_swap_total = eq_range(line, a1, b1, "SwapTotal:".as_bytes());
            let m_swap_free = eq_range(line, a1, b1, "SwapFree:".as_bytes());
            let m_zswap = eq_range(line, a1, b1, "Zswap:".as_bytes());
            let m_zswapped = eq_range(line, a1, b1, "Zswapped:".as_bytes());
            let m_swap_cached = eq_range(line, a1, b1, "SwapCached:".as_bytes());
            let any = m_total || m_free || m_available || m_used || m_shared || m_buffers
                || m_cached || m_swap_total || m_swap_free || m_zswap || m_zswapped
                || m_swap_cached;
            proof {
                assert(any == is_mem_key(tok1(l)));
            }
            if any {
                let v = match parse_digit_run(line, a2, b2) {
                    Ok(v) => v,
                    Err(er) => {
                        proof {
                            assert(line_err(l) == Some(Error::BadNumber));
                        }
                        return Err(er);
                    },
                };
                if m_total {
                    total = v;
                }
                if m_free {
                    free = v;
                }
                if m_available {
                    available = v;
                }
                if m_shared {
                    shared = v;
                }
                if m_buffers {
                    buffers = v;
                }
                if m_cached {
                    cached = v;
                }
                if m_swap_total {
                    swap_total = v;
                }
                if m_swap_free {
                    swap_free = v;
                }
                if m_zswap {
                    zswap_compressed = v;
                }
                if m_zswapped {
                    zswap = v;
                }
                if m_swap_cached {
                    swap_cached = v;
                }
            }
            proof {
                assert(line_err(l) is None);
            }
            pos = if e < n {
                e + 1
            } else {
                n
            };
        }
        let used = total.saturating_sub(free).saturating_sub(buffers).saturating_sub(cached);
        let swap_used = swap_total.saturating_sub(swap_free);
        let swap_available = swap_total.saturating_sub(swap_used);
        let ratio: u64 = if zswap_compressed == 0 {
            0
        } else {
            let w = (zswap as u128) * 1000 / (zswap_compressed as u128);
            if w > u64::MAX as u128 {
                u64::MAX
            } else {
                w as u64
            }
        };
        self.total = total;
        self.free = free;
        self.available = available;
        self.used = used;
        self.shared = shared;
        self.buffers = buffers;
        self.cached = cached;
        self.swap_total = swap_total;
        self.swap_free = swap_free;
        self.zswap = zswap;
        self.zswap_compressed = zswap_compressed;
        self.swap_cached = swap_cached;
        self.compression_ratio_permille = ratio;
        self.swap_used = swap_used;
        self.swap_available = swap_available;
        self.totalvmem = total.saturating_add(swap_total);
        self.freevmem = free.saturating_add(swap_free);
        self.usedvmem = used.saturating_add(swap_used);
        self.availablevmem = available.saturating_add(swap_available);
        self.swap_on_disk = swap_used.saturating_sub(zswap);
        Ok(())
    }
}

impl Default for MemoryStats {
    fn default() -> (r: Self)
        ensures
            r.is_zeroed(),
    {
        MemoryStats::new()
    }
}

} // verus!
