//! Aggregate CPU tick counters and the load-delta estimator.

use vstd::prelude::*;
use vstd::arithmetic::div_mod::{lemma_div_by_multiple, lemma_div_is_ordered, lemma_div_pos_is_pos};
use crate::text::{
    all_digits, ascii_bytes, bytes_of, dec_val, find_line_with_prefix, first_with_prefix,
    parse_u64_dec, spec_lines, spec_tokens, split_lines, split_tokens,
};

verus! {

/// Cumulative CPU tick counters since boot, aggregated over all cores:
/// the eight fields of the kernel's all-CPU statistics line.
#[derive(Clone, Copy, PartialEq, Eq, Structural, Debug)]
pub struct CpuStat {
    pub user: u64,
    pub nice: u64,
    pub system: u64,
    pub idle: u64,
    pub iowait: u64,
    pub irq: u64,
    pub softirq: u64,
    pub steal: u64,
}

impl CpuStat {
    /// Mathematical sum of all eight counters.
    pub open spec fn total_spec(&self) -> int {
        self.user + self.nice + self.system + self.idle + self.iowait + self.irq
            + self.softirq + self.steal
    }

    /// Ticks not spent idle or waiting for I/O.
    pub open spec fn busy_spec(&self) -> int {
        self.total_spec() - self.idle - self.iowait
    }

    /// Sum of all eight counters.
    pub fn total(&self) -> (r: u64)
        requires
            self.total_spec() <= u64::MAX,
        ensures
            r == self.total_spec(),
    {
        self.user + self.nice + self.system + self.idle + self.iowait + self.irq
            + self.softirq + self.steal
    }

    /// Ticks not spent idle or waiting for I/O.
    pub fn busy(&self) -> (r: u64)
        requires
            self.total_spec() <= u64::MAX,
        ensures
            r == self.busy_spec(),
    {
        self.total() - self.idle - self.iowait
    }
}

/// Every counter of `curr` is at least the matching counter of `prev`:
/// the samples were taken in order on a host whose counters did not reset.
pub open spec fn monotone_pair(prev: CpuStat, curr: CpuStat) -> bool {
    &&& prev.user <= curr.user
    &&& prev.nice <= curr.nice
    &&& prev.system <= curr.system
    &&& prev.idle <= curr.idle
    &&& prev.iowait <= curr.iowait
    &&& prev.irq <= curr.irq
    &&& prev.softirq <= curr.softirq
    &&& prev.steal <= curr.steal
}

/// CPU utilisation over a sampling window, as the exact ratio
/// `busy_diff / total_diff` of tick deltas. A zero `total_diff` denotes
/// a window in which no counter advanced and is reported as zero load.
/// Rendering the ratio as a percentage value is left to the caller.
#[derive(Clone, Copy, PartialEq, Eq, Structural, Debug)]
pub struct CpuLoad {
    pub busy_diff: u64,
    pub total_diff: u64,
}

impl CpuLoad {
    /// The ratio never exceeds one: as a percentage it lies in [0, 100].
    pub open spec fn in_range(&self) -> bool {
        self.busy_diff <= self.total_diff
    }

    /// The load percentage rounded down to a whole number
    /// (`100 * busy_diff / total_diff`, and zero for an empty window).
    pub open spec fn percent_floor(&self) -> int {
        if self.total_diff == 0 {
            0
        } else {
            (100 * self.busy_diff) / (self.total_diff as int)
        }
    }
}

/// Load estimate for a pair of samples taken in order: the exact tick
/// deltas of the window.
pub fn calculate_cpu_load(prev: &CpuStat, curr: &CpuStat) -> (r: CpuLoad)
    requires
        monotone_pair(*prev, *curr),
        curr.total_spec() <= u64::MAX,
    ensures
        r.total_diff == curr.total_spec() - prev.total_spec(),
        r.busy_diff == curr.busy_spec() - prev.busy_spec(),
        r.in_range(),
        prev.total_spec() == curr.total_spec() ==> r == (CpuLoad { busy_diff: 0, total_diff: 0 }),
{
    let prev_total = prev.total();
    let curr_total = curr.total();
    let prev_busy = prev.busy();
    let curr_busy = curr.busy();
    let total_diff = curr_total - prev_total;
    let busy_diff = curr_busy - prev_busy;
    CpuLoad { busy_diff, total_diff }
}

/// The load for an arbitrary pair of samples. A pair whose counters
/// went backwards, or whose sum no longer fits in a counter word, is
/// reported as zero load: the policy for a counter reset between the
/// two samples.
pub open spec fn spec_cpu_load(prev: CpuStat, curr: CpuStat) -> CpuLoad {
    if monotone_pair(prev, curr) && curr.total_spec() <= u64::MAX {
        CpuLoad {
            busy_diff: (curr.busy_spec() - prev.busy_spec()) as u64,
            total_diff: (curr.total_spec() - prev.total_spec()) as u64,
        }
    } else {
        CpuLoad { busy_diff: 0, total_diff: 0 }
    }
}

fn pair_is_monotone(prev: &CpuStat, curr: &CpuStat) -> (r: bool)
    ensures
        r == monotone_pair(*prev, *curr),
{
    prev.user <= curr.user && prev.nice <= curr.nice && prev.system <= curr.system && prev.idle
        <= curr.idle && prev.iowait <= curr.iowait && prev.irq <= curr.irq && prev.softirq
        <= curr.softirq && prev.steal <= curr.steal
}

fn total_fits(s: &CpuStat) -> (r: bool)
    ensures
        r == (s.total_spec() <= u64::MAX),
{
    let mut acc: u64 = s.user;
    match acc.checked_add(s.nice) {
        Some(v) => acc = v,
        None => {
            return false;
        },
    }
    match acc.checked_add(s.system) {
        Some(v) => acc = v,
        None => {
            return false;
        },
    }
    match acc.checked_add(s.idle) {
        Some(v) => acc = v,
        None => {
            return false;
        },
    }
    match acc.checked_add(s.iowait) {
        Some(v) => acc = v,
        None => {
            return false;
        },
    }
    match acc.checked_add(s.irq) {
        Some(v) => acc = v,
        None => {
            return false;
        },
    }
    match acc.checked_add(s.softirq) {
        Some(v) => acc = v,
        None => {
            return false;
        },
    }
    match acc.checked_add(s.steal) {
        Some(v) => acc = v,
        None => {
            return false;
        },
    }
    let _ = acc;
    true
}

/// Load estimate for any pair of samples, with the reset policy of
/// `spec_cpu_load`: never panics, and the ratio is always in range.
pub fn cpu_load_between(prev: &CpuStat, curr: &CpuStat) -> (r: CpuLoad)
    ensures
        r == spec_cpu_load(*prev, *curr),
        r.in_range(),
{
    if pair_is_monotone(prev, curr) && total_fits(curr) {
        calculate_cpu_load(prev, curr)
    } else {
        CpuLoad { busy_diff: 0, total_diff: 0 }
    }
}

/// For every valid pair of samples whose counters advanced, the load
/// percentage lies between 0 and 100.
pub proof fn lemma_cpu_load_percent_in_range(prev: CpuStat, curr: CpuStat)
    requires
        monotone_pair(prev, curr),
        curr.total_spec() <= u64::MAX,
        prev.total_spec() < curr.total_spec(),
    ensures
        0 <= spec_cpu_load(prev, curr).percent_floor() <= 100,
{
    let b = curr.busy_spec() - prev.busy_spec();
    let t = curr.total_spec() - prev.total_spec();
    assert(0 <= b <= t);
    lemma_div_pos_is_pos(100 * b, t);
    lemma_div_is_ordered(100 * b, 100 * t, t);
    lemma_div_by_multiple(100, t);
}

/// A window in which the counter total did not advance reports zero load.
pub proof fn lemma_equal_totals_zero_load(prev: CpuStat, curr: CpuStat)
    requires
        monotone_pair(prev, curr),
        curr.total_spec() <= u64::MAX,
        prev.total_spec() == curr.total_spec(),
    ensures
        spec_cpu_load(prev, curr) == (CpuLoad { busy_diff: 0, total_diff: 0 }),
        spec_cpu_load(prev, curr).percent_floor() == 0,
{
}

/// The first line of the statistics source that carries the all-CPU
/// aggregate: its first four bytes are `cpu` and a space, which no
/// per-core line matches.
pub open spec fn first_cpu_line(ls: Seq<Seq<u8>>) -> Option<Seq<u8>> {
    first_with_prefix(ls, bytes_of("cpu "@))
}

/// A token that denotes a counter value: one or more digits, in range.
pub open spec fn is_u64_token(t: Seq<u8>) -> bool {
    t.len() > 0 && all_digits(t) && dec_val(t) <= u64::MAX
}

/// What the statistics source parses to: the eight counters of the
/// aggregate line, read from its second to ninth tokens, or nothing if
/// the line is missing, short, or holds a malformed counter.
pub open spec fn spec_parse_cpu_stat(content: Seq<u8>) -> Option<CpuStat> {
    match first_cpu_line(spec_lines(content)) {
        None => None,
        Some(l) => {
            let toks = spec_tokens(l);
            if toks.len() < 9 {
                None
            } else if !(is_u64_token(toks[1]) && is_u64_token(toks[2]) && is_u64_token(toks[3])
                && is_u64_token(toks[4]) && is_u64_token(toks[5]) && is_u64_token(toks[6])
                && is_u64_token(toks[7]) && is_u64_token(toks[8])) {
                None
            } else {
                Some(
                    CpuStat {
                        user: dec_val(toks[1]) as u64,
                        nice: dec_val(toks[2]) as u64,
                        system: dec_val(toks[3]) as u64,
                        idle: dec_val(toks[4]) as u64,
                        iowait: dec_val(toks[5]) as u64,
                        irq: dec_val(toks[6]) as u64,
                        softirq: dec_val(toks[7]) as u64,
                        steal: dec_val(toks[8]) as u64,
                    },
                )
            }
        },
    }
}

impl CpuStat {
    /// Parses the raw statistics source.
    pub fn parse(content: &[u8]) -> (r: Option<CpuStat>)
        ensures
            r == spec_parse_cpu_stat(content@),
    {
        proof {
            reveal_strlit("cpu ");
        }
        let key = ascii_bytes("cpu ");
        let lines = split_lines(content);
        let ghost dv = lines.deep_view();
        let i = match find_line_with_prefix(&lines, key.as_slice()) {
            Some(i) => i,
            None => {
                return None;
            },
        };
        let toks = split_tokens(lines[i].as_slice());
        proof {
            assert(dv[i as int] =~= lines@[i as int]@);
            assert(toks.deep_view() == spec_tokens(dv[i as int]));
        }
        if toks.len() < 9 {
            return None;
        }
        proof {
            assert(forall|k: int| 0 <= k < toks@.len() ==> toks.deep_view()[k] =~= toks@[k]@);
        }
        let user = match parse_u64_dec(toks[1].as_slice()) {
            Some(v) => v,
            None => {
                return None;
            },
        };
        let nice = match parse_u64_dec(toks[2].as_slice()) {
            Some(v) => v,
            None => {
                return None;
            },
        };
        let system = match parse_u64_dec(toks[3].as_slice()) {
            Some(v) => v,
            None => {
                return None;
            },
        };
        let idle = match parse_u64_dec(toks[4].as_slice()) {
            Some(v) => v,
            None => {
                return None;
            },
        };
        let iowait = match parse_u64_dec(toks[5].as_slice()) {
            Some(v) => v,
            None => {
                return None;
            },
        };
        let irq = match parse_u64_dec(toks[6].as_slice()) {
            Some(v) => v,
            None => {
                return None;
            },
        };
        let softirq = match parse_u64_dec(toks[7].as_slice()) {
            Some(v) => v,
            None => {
                return None;
            },
        };
        let steal = match parse_u64_dec(toks[8].as_slice()) {
            Some(v) => v,
            None => {
                return None;
            },
        };
        Some(CpuStat { user, nice, system, idle, iowait, irq, softirq, steal })
    }
}

} // verus!
