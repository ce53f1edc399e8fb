//! The integer side of the resource monitor: CPU ticks read from a
//! `/proc/<pid>/stat` line, the resident size reported by `ps`, and the share
//! of the configured heap that the process holds.

use vstd::prelude::*;
use crate::console::{parse_u64, parse_u64_of};
use crate::text::{chars_of, string_of, tokens, tokens_of, trim, trim_str, views};

verus! {

/// A `/proc` field read as a tick count: its value where it parses, else 0.
pub open spec fn tick_value(field: Seq<char>) -> nat {
    match parse_u64(field) {
        Some(v) => v as nat,
        None => 0,
    }
}

/// The stat line holds the user-time and system-time fields (the 14th and
/// 15th whitespace-separated fields).
pub open spec fn has_tick_fields(stat: Seq<char>) -> bool {
    tokens(stat).len() > 14
}

/// The user-time plus system-time ticks of a stat line, a missing or
/// unreadable field counting 0, the sum taken modulo 2^64.
pub open spec fn ticks_total(stat: Seq<char>) -> u64 {
    let t = tokens(stat);
    let u: nat = if t.len() > 13 { tick_value(t[13]) } else { 0 };
    let s: nat = if t.len() > 14 { tick_value(t[14]) } else { 0 };
    ((u + s) % 0x1_0000_0000_0000_0000) as u64
}

fn tick_value_of(field: &Vec<char>) -> (r: u64)
    ensures
        r == tick_value(field@),
{
    let s = string_of(field);
    match parse_u64_of(s.as_str()) {
        Some(v) => v,
        None => 0,
    }
}

/// Whether a `/proc/<pid>/stat` line holds both CPU time fields.
pub fn stat_has_ticks(stat: &str) -> (r: bool)
    ensures
        r == has_tick_fields(stat@),
{
    let v = chars_of(stat);
    let t = tokens_of(&v);
    t.len() > 14
}

/// The CPU time in ticks that a `/proc/<pid>/stat` line records.
pub fn stat_ticks(stat: &str) -> (r: u64)
    ensures
        r == ticks_total(stat@),
{
    let v = chars_of(stat);
    let t = tokens_of(&v);
    proof {
        assert(views(t@).len() == t@.len());
    }
    let u: u64 = if t.len() > 13 {
        proof {
            assert(views(t@)[13] == t@[13]@);
        }
        tick_value_of(&t[13])
    } else {
        0
    };
    let s: u64 = if t.len() > 14 {
        proof {
            assert(views(t@)[14] == t@[14]@);
        }
        tick_value_of(&t[14])
    } else {
        0
    };
    let r = u.wrapping_add(s);
    proof {
        assert(r == (u + s) % 0x1_0000_0000_0000_0000) by (bit_vector)
            requires
                r == u.wrapping_add(s),
        ;
    }
    r
}

/// The ticks spent since the previous sample, where there was one; a
/// counter that went back gives 0.
pub fn tick_delta(previous: Option<u64>, total: u64) -> (r: Option<u64>)
    ensures
        r == (match previous {
            Some(p) => Some(if total >= p { (total - p) as u64 } else { 0u64 }),
            None => None::<u64>,
        }),
{
    match previous {
        Some(p) => Some(total.saturating_sub(p)),
        None => None,
    }
}

/// The resident size in KiB that `ps -o rss=` printed: the trimmed output
/// parsed as a number, 0 where it does not parse.
pub fn rss_kib(ps_output: &str) -> (r: u64)
    ensures
        r == (match parse_u64(trim(ps_output@)) {
            Some(v) => v,
            None => 0u64,
        }),
{
    let t = trim_str(ps_output);
    match parse_u64_of(t.as_str()) {
        Some(v) => v,
        None => 0,
    }
}

/// The resident size in whole MiB and the percentage of the heap limit it
/// takes (0 where the heap limit is 0).
pub fn heap_usage(rss_kib: u64, heap_mib: u64) -> (r: (u64, u64))
    ensures
        r.0 == rss_kib / 1024,
        r.1 == (if heap_mib > 0 { (rss_kib / 1024) * 100 / (heap_mib as int) } else { 0 }),
{
    let rss_mib = rss_kib / 1024;
    assert(rss_mib * 100 <= u64::MAX) by (nonlinear_arith)
        requires
            rss_mib == rss_kib / 1024,
    ;
    let pct = if heap_mib > 0 {
        rss_mib * 100 / heap_mib
    } else {
        0
    };
    (rss_mib, pct)
}

} // verus!
