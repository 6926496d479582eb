//! The static CPU identity record: fields read from the per-processor
//! attribute listing and from the system-configuration command's output.
//!
//! The clock-speed and bogomips figures are kept as their raw decimal
//! tokens, already checked to be well-formed numbers, so a caller can
//! embed them in a JSON text or parse them further; this library holds
//! no floating-point values.

use vstd::prelude::*;
use crate::text::{
    ascii_bytes, bytes_of, check_json_number, contains_seq, field_after_colon,
    find_line_with_prefix, first_with_prefix, is_json_number, join_lines, push_all, spec_contains,
    spec_field_after_colon, spec_join_lines, spec_lines, spec_starts_with, split_lines,
    starts_with,
};

verus! {

/// The identity of the host's CPU, read fresh on every request.
pub struct CpuIdentity {
    /// How many `processor` entries the attribute listing holds.
    pub cpu_count: u64,
    /// The clock speed in MHz, as its raw decimal token.
    pub cpu_mhz: Vec<u8>,
    /// The model name, verbatim.
    pub model_name: Vec<u8>,
    /// The bogomips figure, as its raw decimal token.
    pub bogomips: Vec<u8>,
    /// The first lines of the configuration command's output.
    pub architecture: Vec<u8>,
    /// The cache-hierarchy lines of that output.
    pub cache_info: Vec<u8>,
}

/// How many of the lines start with `processor`.
pub open spec fn count_processor_lines(ls: Seq<Seq<u8>>) -> int
    decreases ls.len(),
{
    if ls.len() == 0 {
        0int
    } else {
        count_processor_lines(ls.drop_last()) + if spec_starts_with(
            ls.last(),
            bytes_of("processor"@),
        ) {
            1int
        } else {
            0int
        }
    }
}

/// The `key: value` field of the first line starting with `p`, with the
/// value required to be a well-formed number when `numeric` is set.
pub open spec fn spec_field_of(content: Seq<u8>, p: Seq<u8>, numeric: bool) -> Option<Seq<u8>> {
    spec_field_of_lines(spec_lines(content), p, numeric)
}

/// The architecture summary: the first four lines of the configuration
/// command's output (all of it, if shorter), joined back together.
pub open spec fn spec_architecture(out: Seq<u8>) -> Seq<u8> {
    let ls = spec_lines(out);
    spec_join_lines(
        ls.take(
            if ls.len() < 4 {
                ls.len() as int
            } else {
                4
            },
        ),
    )
}

/// The lines that mention the cache hierarchy, in order.
pub open spec fn cache_lines(ls: Seq<Seq<u8>>) -> Seq<Seq<u8>>
    decreases ls.len(),
{
    if ls.len() == 0 {
        seq![]
    } else {
        cache_lines(ls.drop_last()) + if spec_contains(ls.last(), bytes_of("cache"@)) {
            seq![ls.last()]
        } else {
            seq![]
        }
    }
}

/// The cache description: the lines mentioning `cache`, joined.
pub open spec fn spec_cache_info(out: Seq<u8>) -> Seq<u8> {
    spec_join_lines(cache_lines(spec_lines(out)))
}

/// Extracts the field of the first line with prefix `p`.
fn field_of(content_lines: &Vec<Vec<u8>>, p: &[u8], numeric: bool) -> (r: Option<Vec<u8>>)
    requires
        p@.len() > 0,
    ensures
        match r {
            Some(v) => spec_field_of_lines(content_lines.deep_view(), p@, numeric) == Some(v@),
            None => spec_field_of_lines(content_lines.deep_view(), p@, numeric) is None,
        },
{
    let i = match find_line_with_prefix(content_lines, p) {
        Some(i) => i,
        None => {
            return None;
        },
    };
    proof {
        assert(content_lines.deep_view()[i as int] =~= content_lines@[i as int]@);
    }
    let v = match field_after_colon(content_lines[i].as_slice()) {
        Some(v) => v,
        None => {
            return None;
        },
    };
    if numeric && !check_json_number(v.as_slice()) {
        return None;
    }
    Some(v)
}

/// As `spec_field_of`, over the already split lines.
pub open spec fn spec_field_of_lines(ls: Seq<Seq<u8>>, p: Seq<u8>, numeric: bool) -> Option<
    Seq<u8>,
> {
    match first_with_prefix(ls, p) {
        None => None,
        Some(l) => match spec_field_after_colon(l) {
            None => None,
            Some(v) => if !numeric || is_json_number(v) {
                Some(v)
            } else {
                None
            },
        },
    }
}

/// Counts the lines that start with `processor`.
fn count_processors(lines: &Vec<Vec<u8>>, p: &[u8]) -> (r: u64)
    requires
        p@ == bytes_of("processor"@),
    ensures
        r == count_processor_lines(lines.deep_view()),
{
    let ghost dv = lines.deep_view();
    let n = lines.len();
    let mut cnt: u64 = 0;
    let mut i: usize = 0;
    proof {
        assert(dv.take(0) =~~= Seq::<Seq<u8>>::empty());
    }
    while i < n
        invariant
            n == lines@.len(),
            i <= n,
            dv == lines.deep_view(),
            p@ == bytes_of("processor"@),
            cnt == count_processor_lines(dv.take(i as int)),
            cnt <= i,
        decreases n - i,
    {
        proof {
            assert(dv[i as int] =~= lines@[i as int]@);
            assert(dv.take(i + 1).drop_last() =~~= dv.take(i as int));
            assert(dv.take(i + 1).last() == dv[i as int]);
        }
        if starts_with(lines[i].as_slice(), p) {
            cnt = cnt + 1;
        }
        i = i + 1;
    }
    proof {
        assert(dv.take(n as int) =~~= dv);
    }
    cnt
}

/// Collects the lines that mention `cache`.
fn collect_cache_lines(lines: &Vec<Vec<u8>>, p: &[u8]) -> (r: Vec<Vec<u8>>)
    requires
        p@ == bytes_of("cache"@),
    ensures
        r.deep_view() == cache_lines(lines.deep_view()),
{
    let ghost dv = lines.deep_view();
    let n = lines.len();
    let mut acc: Vec<Vec<u8>> = Vec::new();
    let mut i: usize = 0;
    proof {
        assert(dv.take(0) =~~= Seq::<Seq<u8>>::empty());
        assert(acc.deep_view() =~~= cache_lines(dv.take(0)));
    }
    while i < n
        invariant
            n == lines@.len(),
            i <= n,
            dv == lines.deep_view(),
            p@ == bytes_of("cache"@),
            acc.deep_view() == cache_lines(dv.take(i as int)),
        decreases n - i,
    {
        proof {
            assert(dv[i as int] =~= lines@[i as int]@);
            assert(dv.take(i + 1).drop_last() =~~= dv.take(i as int));
            assert(dv.take(i + 1).last() == dv[i as int]);
        }
        if contains_seq(lines[i].as_slice(), p) {
            let mut line: Vec<u8> = Vec::new();
            push_all(&mut line, lines[i].as_slice());
            let ghost accv = acc.deep_view();
            acc.push(line);
            proof {
                assert(acc.deep_view() =~~= accv + seq![dv[i as int]]);
            }
        } else {
            proof {
                assert(acc.deep_view() + seq![] =~~= acc.deep_view());
            }
        }
        i = i + 1;
    }
    proof {
        assert(dv.take(n as int) =~~= dv);
    }
    acc
}

impl CpuIdentity {
    /// Parses the attribute listing and the configuration command's
    /// output into the identity record. Nothing is returned if the
    /// clock speed, model name or bogomips field is absent or, for the
    /// numeric fields, malformed; the line count and the two summary
    /// strings cannot fail.
    pub fn parse(cpuinfo: &[u8], lscpu: &[u8]) -> (r: Option<CpuIdentity>)
        ensures
            match r {
                Some(ci) => {
                    &&& ci.cpu_count == count_processor_lines(spec_lines(cpuinfo@))
                    &&& spec_field_of(cpuinfo@, bytes_of("cpu MHz"@), true) == Some(ci.cpu_mhz@)
                    &&& spec_field_of(cpuinfo@, bytes_of("model name"@), false) == Some(
                        ci.model_name@,
                    )
                    &&& spec_field_of(cpuinfo@, bytes_of("bogomips"@), true) == Some(ci.bogomips@)
                    &&& ci.architecture@ == spec_architecture(lscpu@)
                    &&& ci.cache_info@ == spec_cache_info(lscpu@)
                },
                None => {
                    ||| spec_field_of(cpuinfo@, bytes_of("cpu MHz"@), true) is None
                    ||| spec_field_of(cpuinfo@, bytes_of("model name"@), false) is None
                    ||| spec_field_of(cpuinfo@, bytes_of("bogomips"@), true) is None
                },
            },
    {
        proof {
            reveal_strlit("processor");
            reveal_strlit("cpu MHz");
            reveal_strlit("model name");
            reveal_strlit("bogomips");
            reveal_strlit("cache");
        }
        let info_lines = split_lines(cpuinfo);
        let key_processor = ascii_bytes("processor");
        let key_mhz = ascii_bytes("cpu MHz");
        let key_model = ascii_bytes("model name");
        let key_bogomips = ascii_bytes("bogomips");
        let key_cache = ascii_bytes("cache");
        let cpu_count = count_processors(&info_lines, key_processor.as_slice());
        let cpu_mhz = match field_of(&info_lines, key_mhz.as_slice(), true) {
            Some(v) => v,
            None => {
                return None;
            },
        };
        let model_name = match field_of(&info_lines, key_model.as_slice(), false) {
            Some(v) => v,
            None => {
                return None;
            },
        };
        let bogomips = match field_of(&info_lines, key_bogomips.as_slice(), true) {
            Some(v) => v,
            None => {
                return None;
            },
        };
        let out_lines = split_lines(lscpu);
        let mut head: Vec<Vec<u8>> = Vec::new();
        let take_n = if out_lines.len() < 4 {
            out_lines.len()
        } else {
            4
        };
        let mut i: usize = 0;
        while i < take_n
            invariant
                take_n <= out_lines@.len(),
                i <= take_n,
                head.deep_view() == out_lines.deep_view().take(i as int),
            decreases take_n - i,
        {
            proof {
                assert(out_lines.deep_view()[i as int] =~= out_lines@[i as int]@);
            }
            let mut line: Vec<u8> = Vec::new();
            push_all(&mut line, out_lines[i].as_slice());
            let ghost hv = head.deep_view();
            head.push(line);
            proof {
                assert(head.deep_view() =~~= hv + seq![out_lines.deep_view()[i as int]]);
                assert(hv + seq![out_lines.deep_view()[i as int]] =~~= out_lines.deep_view().take(
                    i + 1,
                ));
            }
            i = i + 1;
        }
        let architecture = join_lines(&head);
        let cache = collect_cache_lines(&out_lines, key_cache.as_slice());
        let cache_info = join_lines(&cache);
        Some(
            CpuIdentity {
                cpu_count,
                cpu_mhz,
                model_name,
                bogomips,
                architecture,
                cache_info,
            },
        )
    }
}

} // verus!
