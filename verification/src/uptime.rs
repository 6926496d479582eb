//! The uptime report: parses the first token of the kernel's uptime
//! source as a seconds value and renders it as a human-readable
//! `days, hours, minutes, seconds` string.
//!
//! The seconds value is held in hundredths of a second, the precision
//! the source itself carries; further fractional digits are dropped.
//! Days, hours and minutes are rounded down; the seconds figure is
//! rendered to the nearest whole number, ties to even, and so can read
//! `60` just under a minute boundary.

use vstd::prelude::*;
use vstd::slice::slice_subrange;
use crate::text::{
    all_digits, ascii_bytes, byte_at, bytes_of, dec_str, dec_val, find_byte, forall_digits_check,
    idx_of, lemma_dec_val_nonneg, lemma_idx_of_is, parse_u64_dec, push_all, spec_tokens,
    split_tokens, u64_to_dec,
};

verus! {

/// Why no report could be made of the source's content.
#[derive(Clone, Copy, PartialEq, Eq, Structural, Debug)]
pub enum UptimeError {
    /// The source held no token at all.
    MissingData,
    /// The first token is not a decimal seconds value in range.
    Malformed,
}

/// Hundredths of a second denoted by up to two fractional digits.
pub open spec fn frac_centis(fp: Seq<u8>) -> int {
    if fp.len() == 0 {
        0
    } else if fp.len() == 1 {
        10 * (fp[0] - 48)
    } else {
        10 * (fp[0] - 48) + (fp[1] - 48)
    }
}

/// The seconds token as hundredths of a second: digits, at most one
/// dot, at least one digit in all, and a value in counter range.
pub open spec fn spec_parse_centis(t: Seq<u8>) -> Option<int> {
    let k = idx_of(t, 46);
    let ip = t.take(k);
    let fp = if k == t.len() {
        Seq::<u8>::empty()
    } else {
        t.skip(k + 1)
    };
    if !(all_digits(ip) && all_digits(fp)) {
        None
    } else if ip.len() == 0 && fp.len() == 0 {
        None
    } else {
        let c = 100 * dec_val(ip) + frac_centis(fp);
        if c <= u64::MAX {
            Some(c)
        } else {
            None
        }
    }
}

/// Parses a seconds token to hundredths of a second.
pub fn parse_centis(t: &[u8]) -> (r: Option<u64>)
    ensures
        match r {
            Some(v) => spec_parse_centis(t@) == Some(v as int),
            None => spec_parse_centis(t@) is None,
        },
{
    let n = t.len();
    let k = match find_byte(t, 46) {
        Some(i) => {
            proof {
                lemma_idx_of_is(t@, 46, i as int);
            }
            i
        },
        None => {
            proof {
                lemma_idx_of_is(t@, 46, n as int);
            }
            n
        },
    };
    let ip = slice_subrange(t, 0, k);
    proof {
        assert(ip@ =~= t@.take(k as int));
    }
    let ghost fp_spec = if k == n {
        Seq::<u8>::empty()
    } else {
        t@.skip(k + 1)
    };
    if !forall_digits_check(ip) {
        return None;
    }
    let fr: u64;
    if k == n {
        proof {
            assert(all_digits(fp_spec));
        }
        if k == 0 {
            return None;
        }
        fr = 0;
        proof {
            assert(frac_centis(fp_spec) == 0);
        }
    } else {
        let fp = slice_subrange(t, k + 1, n);
        proof {
            assert(fp@ =~= fp_spec);
        }
        if !forall_digits_check(fp) {
            return None;
        }
        if k == 0 && fp.len() == 0 {
            return None;
        }
        if fp.len() == 0 {
            fr = 0;
        } else if fp.len() == 1 {
            fr = 10 * (byte_at(fp, 0) - 48) as u64;
        } else {
            fr = 10 * (byte_at(fp, 0) - 48) as u64 + (byte_at(fp, 1)
                - 48) as u64;
        }
    }
    let ipv: u64 = if k == 0 {
        0
    } else {
        match parse_u64_dec(ip) {
            Some(v) => v,
            None => {
                proof {
                    lemma_dec_val_nonneg(ip@);
                    assert(100 * dec_val(ip@) + frac_centis(fp_spec) > u64::MAX);
                }
                return None;
            },
        }
    };
    if ipv > (u64::MAX - fr) / 100 {
        proof {
            assert(100 * dec_val(ip@) + frac_centis(fp_spec) > u64::MAX);
        }
        return None;
    }
    Some(ipv * 100 + fr)
}

/// The seconds figure of the report: the value rounded to a whole
/// number, ties to even.
pub open spec fn rendered_seconds(c: int) -> int {
    let cs = c % 6000;
    let s0 = cs / 100;
    let f = cs % 100;
    if f > 50 {
        s0 + 1
    } else if f < 50 {
        s0
    } else if s0 % 2 == 0 {
        s0
    } else {
        s0 + 1
    }
}

/// The full report string for an uptime of `c` hundredths of a second:
/// whole days, whole hours and whole minutes rounded down, then the
/// seconds figure.
pub open spec fn spec_format_uptime(c: int) -> Seq<u8> {
    dec_str(c / 8640000) + bytes_of(" days, "@) + dec_str((c % 8640000) / 360000) + bytes_of(
        " hours, "@,
    ) + dec_str((c % 360000) / 6000) + bytes_of(" minutes, "@) + dec_str(rendered_seconds(c))
        + bytes_of(" seconds"@)
}

/// Renders the report string.
pub fn format_uptime(c: u64) -> (r: Vec<u8>)
    ensures
        r@ == spec_format_uptime(c as int),
{
    proof {
        reveal_strlit(" days, ");
        reveal_strlit(" hours, ");
        reveal_strlit(" minutes, ");
        reveal_strlit(" seconds");
    }
    let days = c / 8640000;
    let hours = (c % 8640000) / 360000;
    let minutes = (c % 360000) / 6000;
    let cs = c % 6000;
    let s0 = cs / 100;
    let f = cs % 100;
    let sec: u64 = if f > 50 {
        s0 + 1
    } else if f < 50 {
        s0
    } else if s0 % 2 == 0 {
        s0
    } else {
        s0 + 1
    };
    let mut out = u64_to_dec(days);
    let part_days = ascii_bytes(" days, ");
    push_all(&mut out, part_days.as_slice());
    let num_hours = u64_to_dec(hours);
    push_all(&mut out, num_hours.as_slice());
    let part_hours = ascii_bytes(" hours, ");
    push_all(&mut out, part_hours.as_slice());
    let num_minutes = u64_to_dec(minutes);
    push_all(&mut out, num_minutes.as_slice());
    let part_minutes = ascii_bytes(" minutes, ");
    push_all(&mut out, part_minutes.as_slice());
    let num_sec = u64_to_dec(sec);
    push_all(&mut out, num_sec.as_slice());
    let part_seconds = ascii_bytes(" seconds");
    push_all(&mut out, part_seconds.as_slice());
    proof {
        assert(out@ =~= spec_format_uptime(c as int));
    }
    out
}

/// The report made of the source's raw content: the first
/// whitespace-separated token, parsed and formatted.
pub open spec fn spec_uptime_report(content: Seq<u8>) -> Result<Seq<u8>, UptimeError> {
    let toks = spec_tokens(content);
    if toks.len() == 0 {
        Err(UptimeError::MissingData)
    } else {
        match spec_parse_centis(toks[0]) {
            None => Err(UptimeError::Malformed),
            Some(c) => Ok(spec_format_uptime(c)),
        }
    }
}

/// Parses the uptime source and renders the report.
pub fn uptime_report(content: &[u8]) -> (r: Result<Vec<u8>, UptimeError>)
    ensures
        match r {
            Ok(v) => spec_uptime_report(content@) == Ok::<Seq<u8>, UptimeError>(v@),
            Err(e) => spec_uptime_report(content@) == Err::<Seq<u8>, UptimeError>(e),
        },
{
    let toks = split_tokens(content);
    if toks.len() == 0 {
        return Err(UptimeError::MissingData);
    }
    proof {
        assert(toks.deep_view()[0] =~= toks@[0]@);
    }
    match parse_centis(toks[0].as_slice()) {
        Some(c) => Ok(format_uptime(c)),
        None => Err(UptimeError::Malformed),
    }
}

} // verus!
