//! Assembly of the two response payloads as JSON text, from parts the
//! caller has already rendered: the load percentage as a number token,
//! the memory and disk records as ready JSON objects, and the library's
//! own strings, which are escaped here.

use vstd::prelude::*;
use crate::cpu_identity::CpuIdentity;
use crate::text::{
    ascii_bytes, byte_at, bytes_of, contains_at, dec_str, push_all, spec_contains, u64_to_dec,
};

verus! {

/// A hexadecimal digit, lower case.
pub open spec fn hex_digit(n: int) -> u8 {
    if n < 10 {
        (48 + n) as u8
    } else {
        (87 + n) as u8
    }
}

/// What a byte becomes inside a JSON string: quote and backslash get a
/// backslash, the named control bytes their short escape, other control
/// bytes a four-digit escape, everything else stands as it is.
pub open spec fn escape_byte(b: u8) -> Seq<u8> {
    if b == 34 {
        seq![92u8, 34u8]
    } else if b == 92 {
        seq![92u8, 92u8]
    } else if b == 8 {
        seq![92u8, 98u8]
    } else if b == 9 {
        seq![92u8, 116u8]
    } else if b == 10 {
        seq![92u8, 110u8]
    } else if b == 12 {
        seq![92u8, 102u8]
    } else if b == 13 {
        seq![92u8, 114u8]
    } else if b < 32 {
        seq![92u8, 117u8, 48u8, 48u8, hex_digit(b as int / 16), hex_digit(b as int % 16)]
    } else {
        seq![b]
    }
}

/// The whole byte string escaped.
pub open spec fn spec_escape(s: Seq<u8>) -> Seq<u8>
    decreases s.len(),
{
    if s.len() == 0 {
        seq![]
    } else {
        spec_escape(s.drop_last()) + escape_byte(s.last())
    }
}

/// A JSON string literal: the escaped bytes between quotes.
pub open spec fn spec_json_string(s: Seq<u8>) -> Seq<u8> {
    seq![34u8] + spec_escape(s) + seq![34u8]
}

/// Escapes a byte string for use inside a JSON string literal.
pub fn escape_json(s: &[u8]) -> (r: Vec<u8>)
    ensures
        r@ == spec_escape(s@),
{
    let n = s.len();
    let mut out: Vec<u8> = Vec::new();
    let mut i: usize = 0;
    proof {
        assert(out@ =~= spec_escape(s@.take(0)));
    }
    while i < n
        invariant
            n == s@.len(),
            i <= n,
            out@ == spec_escape(s@.take(i as int)),
        decreases n - i,
    {
        let b = byte_at(s, i);
        let ghost before = out@;
        if b == 34 {
            out.push(92);
            out.push(34);
        } else if b == 92 {
            out.push(92);
            out.push(92);
        } else if b == 8 {
            out.push(92);
            out.push(98);
        } else if b == 9 {
            out.push(92);
            out.push(116);
        } else if b == 10 {
            out.push(92);
            out.push(110);
        } else if b == 12 {
            out.push(92);
            out.push(102);
        } else if b == 13 {
            out.push(92);
            out.push(114);
        } else if b < 32 {
            out.push(92);
            out.push(117);
            out.push(48);
            out.push(48);
            let hi = b / 16;
            let lo = b % 16;
            out.push(
                if hi < 10 {
                    48 + hi
                } else {
                    87 + hi
                },
            );
            out.push(
                if lo < 10 {
                    48 + lo
                } else {
                    87 + lo
                },
            );
        } else {
            out.push(b);
        }
        proof {
            assert(out@ =~= before + escape_byte(s@[i as int]));
            assert(s@.take(i + 1).drop_last() =~= s@.take(i as int));
            assert(s@.take(i + 1).last() == s@[i as int]);
        }
        i = i + 1;
    }
    proof {
        assert(s@.take(n as int) =~= s@);
    }
    out
}

/// The error marker embedded for a memory record that could not be read.
pub open spec fn memory_marker() -> Seq<u8> {
    bytes_of("{\"error\":\"Failed to collect memory metrics\"}"@)
}

/// The error marker embedded for a disk record that could not be read.
pub open spec fn disk_marker() -> Seq<u8> {
    bytes_of("{\"error\":\"Failed to collect disk metrics\"}"@)
}

/// The error marker embedded for an uptime report that could not be read.
pub open spec fn uptime_marker() -> Seq<u8> {
    bytes_of("{\"error\":\"Failed to collect uptime\"}"@)
}

/// The metrics payload. The load is a ready number token and the memory
/// and disk records ready JSON objects; a missing record is replaced by
/// its inline error marker, each slot independently of the others. The
/// uptime string is escaped and quoted here.
pub open spec fn spec_metrics_json(
    load: Seq<u8>,
    memory: Option<Seq<u8>>,
    uptime: Option<Seq<u8>>,
    disk: Option<Seq<u8>>,
) -> Seq<u8> {
    bytes_of("{\"cpu_load\":"@) + load + bytes_of(",\"disk_metrics\":"@) + (match disk {
        Some(d) => d,
        None => disk_marker(),
    }) + bytes_of(",\"memory\":"@) + (match memory {
        Some(m) => m,
        None => memory_marker(),
    }) + bytes_of(",\"uptime\":"@) + (match uptime {
        Some(u) => spec_json_string(u),
        None => uptime_marker(),
    }) + bytes_of("}"@)
}

/// Assembles the metrics payload.
pub fn metrics_json(
    load: &[u8],
    memory: &Option<Vec<u8>>,
    uptime: &Option<Vec<u8>>,
    disk: &Option<Vec<u8>>,
) -> (r: Vec<u8>)
    ensures
        r@ == spec_metrics_json(
            load@,
            match memory {
                Some(m) => Some(m@),
                None => None,
            },
            match uptime {
                Some(u) => Some(u@),
                None => None,
            },
            match disk {
                Some(d) => Some(d@),
                None => None,
            },
        ),
{
    proof {
        reveal_strlit("{\"cpu_load\":");
        reveal_strlit(",\"disk_metrics\":");
        reveal_strlit(",\"memory\":");
        reveal_strlit(",\"uptime\":");
        reveal_strlit("}");
        reveal_strlit("{\"error\":\"Failed to collect memory metrics\"}");
        reveal_strlit("{\"error\":\"Failed to collect disk metrics\"}");
        reveal_strlit("{\"error\":\"Failed to collect uptime\"}");
    }
    let mut out = ascii_bytes("{\"cpu_load\":");
    push_all(&mut out, load);
    let key_disk = ascii_bytes(",\"disk_metrics\":");
    push_all(&mut out, key_disk.as_slice());
    match disk {
        Some(d) => push_all(&mut out, d.as_slice()),
        None => {
            let marker = ascii_bytes("{\"error\":\"Failed to collect disk metrics\"}");
            push_all(&mut out, marker.as_slice());
        },
    }
    let key_memory = ascii_bytes(",\"memory\":");
    push_all(&mut out, key_memory.as_slice());
    match memory {
        Some(m) => push_all(&mut out, m.as_slice()),
        None => {
            let marker = ascii_bytes("{\"error\":\"Failed to collect memory metrics\"}");
            push_all(&mut out, marker.as_slice());
        },
    }
    let key_uptime = ascii_bytes(",\"uptime\":");
    push_all(&mut out, key_uptime.as_slice());
    match uptime {
        Some(u) => {
            out.push(34);
            let esc = escape_json(u.as_slice());
            push_all(&mut out, esc.as_slice());
            out.push(34);
        },
        None => {
            let marker = ascii_bytes("{\"error\":\"Failed to collect uptime\"}");
            push_all(&mut out, marker.as_slice());
        },
    }
    let close = ascii_bytes("}");
    push_all(&mut out, close.as_slice());
    proof {
        assert(out@ =~= spec_metrics_json(
            load@,
            match memory {
                Some(m) => Some(m@),
                None => None,
            },
            match uptime {
                Some(u) => Some(u@),
                None => None,
            },
            match disk {
                Some(d) => Some(d@),
                None => None,
            },
        ));
    }
    out
}

/// A failed memory or disk reader is confined to its own slot of the
/// metrics payload: the load number and the uptime string given to the
/// assembler still appear in it, and each failed slot carries its own
/// marker, independently of the other.
pub proof fn lemma_failed_readers_are_isolated(
    load: Seq<u8>,
    uptime: Seq<u8>,
    memory: Option<Seq<u8>>,
    disk: Option<Seq<u8>>,
)
    ensures
        spec_contains(spec_metrics_json(load, memory, Some(uptime), disk), load),
        spec_contains(spec_metrics_json(load, memory, Some(uptime), disk), spec_json_string(uptime)),
        memory is None ==> spec_contains(
            spec_metrics_json(load, memory, Some(uptime), disk),
            memory_marker(),
        ),
        disk is None ==> spec_contains(
            spec_metrics_json(load, memory, Some(uptime), disk),
            disk_marker(),
        ),
{
    let s = spec_metrics_json(load, memory, Some(uptime), disk);
    let a = bytes_of("{\"cpu_load\":"@);
    let b = bytes_of(",\"disk_metrics\":"@);
    let dk = match disk {
        Some(d) => d,
        None => disk_marker(),
    };
    let c = bytes_of(",\"memory\":"@);
    let mm = match memory {
        Some(m) => m,
        None => memory_marker(),
    };
    let ku = bytes_of(",\"uptime\":"@);
    let uu = spec_json_string(uptime);
    let off_load = a.len() as int;
    let off_disk = (a.len() + load.len() + b.len()) as int;
    let off_mem = off_disk + (dk.len() + c.len()) as int;
    let off_up = off_mem + (mm.len() + ku.len()) as int;
    assert(s.subrange(off_load, off_load + load.len()) =~= load);
    assert(contains_at(s, load, off_load));
    assert(s.subrange(off_up, off_up + uu.len()) =~= uu);
    assert(contains_at(s, uu, off_up));
    if memory is None {
        assert(s.subrange(off_mem, off_mem + mm.len()) =~= memory_marker());
        assert(contains_at(s, memory_marker(), off_mem));
    }
    if disk is None {
        assert(s.subrange(off_disk, off_disk + dk.len()) =~= disk_marker());
        assert(contains_at(s, disk_marker(), off_disk));
    }
}

/// The identity payload: the processor count and the two numeric tokens
/// stand as numbers, the three strings escaped and quoted.
pub open spec fn spec_cpu_info_json(
    cpu_count: int,
    cpu_mhz: Seq<u8>,
    model_name: Seq<u8>,
    bogomips: Seq<u8>,
    architecture: Seq<u8>,
    cache_info: Seq<u8>,
) -> Seq<u8> {
    bytes_of("{\"cpu_count\":"@) + dec_str(cpu_count) + bytes_of(",\"cpu_mhz\":"@) + cpu_mhz
        + bytes_of(",\"model_name\":"@) + spec_json_string(model_name) + bytes_of(",\"bogomips\":"@)
        + bogomips + bytes_of(",\"architecture\":"@) + spec_json_string(architecture) + bytes_of(
        ",\"cache_info\":"@,
    ) + spec_json_string(cache_info) + bytes_of("}"@)
}

/// Assembles the identity payload.
pub fn cpu_info_json(ci: &CpuIdentity) -> (r: Vec<u8>)
    ensures
        r@ == spec_cpu_info_json(
            ci.cpu_count as int,
            ci.cpu_mhz@,
            ci.model_name@,
            ci.bogomips@,
            ci.architecture@,
            ci.cache_info@,
        ),
{
    proof {
        reveal_strlit("{\"cpu_count\":");
        reveal_strlit(",\"cpu_mhz\":");
        reveal_strlit(",\"model_name\":");
        reveal_strlit(",\"bogomips\":");
        reveal_strlit(",\"architecture\":");
        reveal_strlit(",\"cache_info\":");
        reveal_strlit("}");
    }
    let mut out = ascii_bytes("{\"cpu_count\":");
    let count = u64_to_dec(ci.cpu_count);
    push_all(&mut out, count.as_slice());
    let key_mhz = ascii_bytes(",\"cpu_mhz\":");
    push_all(&mut out, key_mhz.as_slice());
    push_all(&mut out, ci.cpu_mhz.as_slice());
    let key_model = ascii_bytes(",\"model_name\":");
    push_all(&mut out, key_model.as_slice());
    out.push(34);
    let esc_model = escape_json(ci.model_name.as_slice());
    push_all(&mut out, esc_model.as_slice());
    out.push(34);
    let key_bogomips = ascii_bytes(",\"bogomips\":");
    push_all(&mut out, key_bogomips.as_slice());
    push_all(&mut out, ci.bogomips.as_slice());
    let key_arch = ascii_bytes(",\"architecture\":");
    push_all(&mut out, key_arch.as_slice());
    out.push(34);
    let esc_arch = escape_json(ci.architecture.as_slice());
    push_all(&mut out, esc_arch.as_slice());
    out.push(34);
    let key_cache = ascii_bytes(",\"cache_info\":");
    push_all(&mut out, key_cache.as_slice());
    out.push(34);
    let esc_cache = escape_json(ci.cache_info.as_slice());
    push_all(&mut out, esc_cache.as_slice());
    out.push(34);
    let close = ascii_bytes("}");
    push_all(&mut out, close.as_slice());
    proof {
        assert(out@ =~= spec_cpu_info_json(
            ci.cpu_count as int,
            ci.cpu_mhz@,
            ci.model_name@,
            ci.bogomips@,
            ci.architecture@,
            ci.cache_info@,
        ));
    }
    out
}

} // verus!
