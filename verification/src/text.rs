//! Byte-level text utilities shared by the counter-source parsers:
//! splitting into lines and whitespace-separated tokens, decimal
//! parsing and rendering, trimming, searching and joining.
//!
//! Every function carries an exact contract over a matching spec
//! function, so the parsers built on top can state what they return
//! for every input.

use vstd::prelude::*;
use vstd::slice::{slice_index_get, slice_subrange};
use vstd::string::StrSliceExecFns;

verus! {

/// The bytes of an ASCII character sequence, code point for code point.
pub open spec fn bytes_of(cs: Seq<char>) -> Seq<u8> {
    Seq::new(cs.len(), |i: int| cs[i] as u8)
}

/// The bytes of an ASCII string slice.
pub fn ascii_bytes(s: &str) -> (r: Vec<u8>)
    requires
        vstd::string::is_ascii(s),
    ensures
        r@ == bytes_of(s@),
{
    proof {
        vstd::string::is_ascii_spec_bytes(s);
    }
    let r = s.as_bytes_vec();
    proof {
        assert(r@ =~= bytes_of(s@));
    }
    r
}

pub const NL: u8 = 10;
pub const CR: u8 = 13;

/// ASCII whitespace: space, tab, line feed, vertical tab, form feed,
/// carriage return.
pub open spec fn is_space(b: u8) -> bool {
    b == 32 || (9 <= b && b <= 13)
}

pub open spec fn is_digit(b: u8) -> bool {
    48 <= b && b <= 57
}

pub fn byte_is_space(b: u8) -> (r: bool)
    ensures
        r == is_space(b),
{
    b == 32 || (9 <= b && b <= 13)
}

pub fn byte_is_digit(b: u8) -> (r: bool)
    ensures
        r == is_digit(b),
{
    48 <= b && b <= 57
}

/// The byte at index `i`.
pub fn byte_at(s: &[u8], i: usize) -> (b: u8)
    requires
        i < s@.len(),
    ensures
        b == s@[i as int],
{
    *slice_index_get(s, i)
}

/// Appends all of `src` to `dst`.
pub fn push_all(dst: &mut Vec<u8>, src: &[u8])
    ensures
        final(dst)@ == old(dst)@ + src@,
{
    let ghost base = dst@;
    let n = src.len();
    let mut k: usize = 0;
    while k < n
        invariant
            n == src@.len(),
            k <= n,
            dst@ == base + src@.take(k as int),
        decreases n - k,
    {
        dst.push(byte_at(src, k));
        proof {
            assert(src@.take(k + 1) =~= src@.take(k as int).push(src@[k as int]));
        }
        k = k + 1;
    }
    proof {
        assert(src@.take(n as int) =~= src@);
    }
}

/// Length of the leading line: the index of the first line feed, or the
/// whole sequence if there is none.
pub open spec fn line_len(s: Seq<u8>) -> int
    decreases s.len(),
{
    if s.len() == 0 {
        0
    } else if s[0] == NL {
        0
    } else {
        1 + line_len(s.drop_first())
    }
}

pub proof fn lemma_line_len(s: Seq<u8>)
    ensures
        0 <= line_len(s) <= s.len(),
        forall|k: int| 0 <= k < line_len(s) ==> s[k] != NL,
        line_len(s) < s.len() ==> s[line_len(s)] == NL,
    decreases s.len(),
{
    if s.len() == 0 {
    } else if s[0] == NL {
    } else {
        lemma_line_len(s.drop_first());
        assert(forall|k: int| 1 <= k < s.len() ==> s[k] == s.drop_first()[k - 1]);
    }
}

/// `line_len` is the unique boundary with no line feed before it.
pub proof fn lemma_line_len_is(s: Seq<u8>, m: int)
    requires
        0 <= m <= s.len(),
        forall|k: int| 0 <= k < m ==> s[k] != NL,
        m < s.len() ==> s[m] == NL,
    ensures
        line_len(s) == m,
    decreases s.len(),
{
    if s.len() == 0 {
    } else if s[0] == NL {
        assert(m == 0);
    } else {
        assert(m != 0);
        lemma_line_len_is(s.drop_first(), m - 1);
    }
}

/// Drops one trailing carriage return, as Rust's line splitting does.
pub open spec fn strip_cr(s: Seq<u8>) -> Seq<u8> {
    if s.len() > 0 && s[s.len() - 1] == CR {
        s.drop_last()
    } else {
        s
    }
}

/// The lines of `s`: split on line feeds, a carriage return before each
/// line feed removed, no final empty line after a trailing line feed. A
/// last line that no line feed ends keeps its bytes as they are.
pub open spec fn spec_lines(s: Seq<u8>) -> Seq<Seq<u8>>
    decreases s.len(),
    via spec_lines_decreases
{
    if s.len() == 0 {
        seq![]
    } else {
        let k = line_len(s);
        if k == s.len() {
            seq![s]
        } else {
            seq![strip_cr(s.take(k))] + spec_lines(s.skip(k + 1))
        }
    }
}

#[via_fn]
proof fn spec_lines_decreases(s: Seq<u8>) {
    lemma_line_len(s);
}

/// Splits `s` into its lines.
pub fn split_lines(s: &[u8]) -> (r: Vec<Vec<u8>>)
    ensures
        r.deep_view() == spec_lines(s@),
{
    let n = s.len();
    let mut acc: Vec<Vec<u8>> = Vec::new();
    let mut start: usize = 0;
    proof {
        assert(s@.skip(0) =~= s@);
        assert(acc.deep_view() + spec_lines(s@) =~~= spec_lines(s@));
    }
    while start < n
        invariant
            n == s@.len(),
            start <= n,
            spec_lines(s@) == acc.deep_view() + spec_lines(s@.skip(start as int)),
        decreases n - start,
    {
        let ghost t = s@.skip(start as int);
        let mut j: usize = start;
        while j < n && byte_at(s, j) != NL
            invariant
                n == s@.len(),
                start <= j <= n,
                forall|k: int| start <= k < j ==> s@[k] != NL,
            decreases n - j,
        {
            j = j + 1;
        }
        proof {
            assert(forall|k: int| 0 <= k < j - start ==> t[k] == s@[start + k]);
            lemma_line_len_is(t, j - start);
        }
        let mut line: Vec<u8> = Vec::new();
        push_all(&mut line, slice_subrange(s, start, j));
        if j < n && line.len() > 0 && line[line.len() - 1] == CR {
            line.pop();
            proof {
                assert(line@ =~= strip_cr(s@.subrange(start as int, j as int)));
            }
        }
        if j == n {
            proof {
                assert(t =~= s@.subrange(start as int, j as int));
                assert(spec_lines(t) == seq![t]);
                assert(line@ =~= t);
            }
            let ghost accv = acc.deep_view();
            acc.push(line);
            proof {
                assert(acc.deep_view() =~~= accv + seq![line@]);
                assert(acc.deep_view() + spec_lines(s@.skip(n as int)) =~~= accv + spec_lines(t));
                assert(spec_lines(s@) == acc.deep_view() + spec_lines(s@.skip(n as int)));
            }
            start = n;
        } else {
            proof {
                assert(line@ =~= strip_cr(s@.subrange(start as int, j as int)));
                assert(t.take(j - start) =~= s@.subrange(start as int, j as int));
                assert(t.skip(j - start + 1) =~= s@.skip(j + 1));
                assert(spec_lines(t) == seq![strip_cr(t.take(j - start))] + spec_lines(
                    s@.skip(j + 1),
                ));
            }
            let ghost accv = acc.deep_view();
            acc.push(line);
            proof {
                assert(acc.deep_view() =~~= accv + seq![line@]);
                assert(acc.deep_view() + spec_lines(s@.skip(j + 1)) =~~= accv + (seq![line@]
                    + spec_lines(s@.skip(j + 1))));
                assert(spec_lines(s@) == acc.deep_view() + spec_lines(s@.skip(j + 1)));
            }
            start = j + 1;
        }
    }
    proof {
        assert(s@.skip(n as int) =~= Seq::<u8>::empty());
        assert(acc.deep_view() + spec_lines(s@.skip(n as int)) =~~= acc.deep_view());
    }
    acc
}

/// Length of the leading token: the index of the first whitespace byte,
/// or the whole sequence if there is none.
pub open spec fn token_len(s: Seq<u8>) -> int
    decreases s.len(),
{
    if s.len() == 0 {
        0
    } else if is_space(s[0]) {
        0
    } else {
        1 + token_len(s.drop_first())
    }
}

pub proof fn lemma_token_len(s: Seq<u8>)
    ensures
        0 <= token_len(s) <= s.len(),
        forall|k: int| 0 <= k < token_len(s) ==> !is_space(s[k]),
        token_len(s) < s.len() ==> is_space(s[token_len(s)]),
    decreases s.len(),
{
    if s.len() == 0 {
    } else if is_space(s[0]) {
    } else {
        lemma_token_len(s.drop_first());
        assert(forall|k: int| 1 <= k < s.len() ==> s[k] == s.drop_first()[k - 1]);
    }
}

/// `token_len` is the unique boundary with no whitespace before it.
pub proof fn lemma_token_len_is(s: Seq<u8>, m: int)
    requires
        0 <= m <= s.len(),
        forall|k: int| 0 <= k < m ==> !is_space(s[k]),
        m < s.len() ==> is_space(s[m]),
    ensures
        token_len(s) == m,
    decreases s.len(),
{
    if s.len() == 0 {
    } else if is_space(s[0]) {
        assert(m == 0);
    } else {
        assert(m != 0);
        lemma_token_len_is(s.drop_first(), m - 1);
    }
}

/// The whitespace-separated tokens of `s`, in order; never empty tokens.
pub open spec fn spec_tokens(s: Seq<u8>) -> Seq<Seq<u8>>
    decreases s.len(),
    via spec_tokens_decreases
{
    if s.len() == 0 {
        seq![]
    } else if is_space(s[0]) {
        spec_tokens(s.drop_first())
    } else {
        let k = token_len(s);
        if k == s.len() {
            seq![s]
        } else {
            seq![s.take(k)] + spec_tokens(s.skip(k))
        }
    }
}

#[via_fn]
proof fn spec_tokens_decreases(s: Seq<u8>) {
    lemma_token_len(s);
}

/// Splits `s` on whitespace.
pub fn split_tokens(s: &[u8]) -> (r: Vec<Vec<u8>>)
    ensures
        r.deep_view() == spec_tokens(s@),
{
    let n = s.len();
    let mut acc: Vec<Vec<u8>> = Vec::new();
    let mut i: usize = 0;
    proof {
        assert(s@.skip(0) =~= s@);
        assert(acc.deep_view() + spec_tokens(s@) =~~= spec_tokens(s@));
    }
    while i < n
        invariant
            n == s@.len(),
            i <= n,
            spec_tokens(s@) == acc.deep_view() + spec_tokens(s@.skip(i as int)),
        decreases n - i,
    {
        let ghost t = s@.skip(i as int);
        if byte_is_space(byte_at(s, i)) {
            proof {
                assert(t.drop_first() =~= s@.skip(i + 1));
                assert(spec_tokens(t) == spec_tokens(s@.skip(i + 1)));
            }
            i = i + 1;
        } else {
            let mut j: usize = i;
            while j < n && !byte_is_space(byte_at(s, j))
                invariant
                    n == s@.len(),
                    i <= j <= n,
                    forall|k: int| i <= k < j ==> !is_space(s@[k]),
                decreases n - j,
            {
                j = j + 1;
            }
            proof {
                assert(forall|k: int| 0 <= k < j - i ==> t[k] == s@[i + k]);
                lemma_token_len_is(t, j - i);
                if j == n {
                    assert(t =~= s@.subrange(i as int, j as int));
                    assert(spec_tokens(t) == seq![t]);
                    assert(s@.skip(j as int) =~= Seq::<u8>::empty());
                    assert(seq![t] =~~= seq![s@.subrange(i as int, j as int)] + spec_tokens(
                        s@.skip(j as int),
                    ));
                } else {
                    assert(t.take(j - i) =~= s@.subrange(i as int, j as int));
                    assert(t.skip(j - i) =~= s@.skip(j as int));
                    assert(spec_tokens(t) == seq![s@.subrange(i as int, j as int)] + spec_tokens(
                        s@.skip(j as int),
                    ));
                }
            }
            let mut tok: Vec<u8> = Vec::new();
            push_all(&mut tok, slice_subrange(s, i, j));
            let ghost accv = acc.deep_view();
            acc.push(tok);
            proof {
                assert(acc.deep_view() =~~= accv + seq![s@.subrange(i as int, j as int)]);
                assert(acc.deep_view() + spec_tokens(s@.skip(j as int)) =~~= accv + (seq![
                    s@.subrange(i as int, j as int)] + spec_tokens(s@.skip(j as int))));
                assert(spec_tokens(s@) == acc.deep_view() + spec_tokens(s@.skip(j as int)));
            }
            i = j;
        }
    }
    proof {
        assert(s@.skip(n as int) =~= Seq::<u8>::empty());
        assert(acc.deep_view() + spec_tokens(s@.skip(n as int)) =~~= acc.deep_view());
    }
    acc
}

pub open spec fn all_digits(s: Seq<u8>) -> bool {
    forall|k: int| 0 <= k < s.len() ==> is_digit(s[k])
}

/// The number denoted by a sequence of decimal digit bytes.
pub open spec fn dec_val(s: Seq<u8>) -> int
    decreases s.len(),
{
    if s.len() == 0 {
        0
    } else {
        10 * dec_val(s.drop_last()) + (s.last() - 48)
    }
}

pub proof fn lemma_dec_val_nonneg(s: Seq<u8>)
    requires
        all_digits(s),
    ensures
        dec_val(s) >= 0,
    decreases s.len(),
{
    if s.len() > 0 {
        lemma_dec_val_nonneg(s.drop_last());
    }
}

/// Extending a digit string only grows its value.
pub proof fn lemma_dec_val_prefix(s: Seq<u8>, i: int)
    requires
        all_digits(s),
        0 <= i <= s.len(),
    ensures
        dec_val(s) >= dec_val(s.take(i)),
    decreases s.len() - i,
{
    if i == s.len() {
        assert(s.take(i) =~= s);
    } else {
        lemma_dec_val_prefix(s, i + 1);
        assert(s.take(i + 1).drop_last() =~= s.take(i));
        assert(s.take(i + 1).last() == s[i]);
        lemma_dec_val_nonneg(s.take(i));
    }
}

/// Parses an unsigned decimal integer. Returns the value exactly when
/// the whole input is one or more digits and the value fits in `u64`.
pub fn parse_u64_dec(t: &[u8]) -> (r: Option<u64>)
    ensures
        match r {
            Some(v) => t@.len() > 0 && all_digits(t@) && v == dec_val(t@),
            None => t@.len() == 0 || !all_digits(t@) || dec_val(t@) > u64::MAX,
        },
{
    let n = t.len();
    if n == 0 {
        return None;
    }
    let mut acc: u64 = 0;
    let mut i: usize = 0;
    while i < n
        invariant
            n == t@.len(),
            i <= n,
            all_digits(t@.take(i as int)),
            acc == dec_val(t@.take(i as int)),
        decreases n - i,
    {
        let b = byte_at(t, i);
        if !byte_is_digit(b) {
            return None;
        }
        let d = b - 48;
        if acc > (u64::MAX - d as u64) / 10 {
            proof {
                assert(t@.take(i + 1).drop_last() =~= t@.take(i as int));
                assert(t@.take(i + 1).last() == t@[i as int]);
                assert(dec_val(t@.take(i + 1)) == 10 * acc + d);
                if all_digits(t@) {
                    lemma_dec_val_prefix(t@, i + 1);
                }
            }
            return None;
        }
        acc = acc * 10 + d as u64;
        proof {
            assert(t@.take(i + 1).drop_last() =~= t@.take(i as int));
            assert(t@.take(i + 1).last() == t@[i as int]);
        }
        i = i + 1;
    }
    proof {
        assert(t@.take(n as int) =~= t@);
    }
    Some(acc)
}

/// Whether every byte of `t` is a decimal digit.
pub fn forall_digits_check(t: &[u8]) -> (r: bool)
    ensures
        r == all_digits(t@),
{
    let n = t.len();
    let mut i: usize = 0;
    while i < n
        invariant
            n == t@.len(),
            i <= n,
            forall|k: int| 0 <= k < i ==> is_digit(t@[k]),
        decreases n - i,
    {
        if !byte_is_digit(byte_at(t, i)) {
            return false;
        }
        i = i + 1;
    }
    true
}

/// The decimal digit string of a non-negative number, no padding.
pub open spec fn dec_str(n: int) -> Seq<u8>
    decreases n,
{
    if n < 10 {
        seq![(48 + if n >= 0 { n } else { 0 }) as u8]
    } else {
        dec_str(n / 10) + seq![(48 + n % 10) as u8]
    }
}

/// Renders `n` in decimal.
pub fn u64_to_dec(n: u64) -> (r: Vec<u8>)
    ensures
        r@ == dec_str(n as int),
    decreases n,
{
    if n < 10 {
        let mut v: Vec<u8> = Vec::new();
        v.push(48 + n as u8);
        proof {
            assert(v@ =~= dec_str(n as int));
        }
        v
    } else {
        let mut v = u64_to_dec(n / 10);
        v.push(48 + (n % 10) as u8);
        proof {
            assert(v@ =~= dec_str((n / 10) as int) + seq![(48 + n as int % 10) as u8]);
        }
        v
    }
}

pub open spec fn trim_front(s: Seq<u8>) -> Seq<u8>
    decreases s.len(),
{
    if s.len() == 0 {
        s
    } else if is_space(s[0]) {
        trim_front(s.drop_first())
    } else {
        s
    }
}

pub open spec fn trim_back(s: Seq<u8>) -> Seq<u8>
    decreases s.len(),
{
    if s.len() == 0 {
        s
    } else if is_space(s.last()) {
        trim_back(s.drop_last())
    } else {
        s
    }
}

/// `s` with leading and trailing whitespace removed.
pub open spec fn spec_trim(s: Seq<u8>) -> Seq<u8> {
    trim_back(trim_front(s))
}

proof fn lemma_trim_front_is(s: Seq<u8>, a: int)
    requires
        0 <= a <= s.len(),
        forall|k: int| 0 <= k < a ==> is_space(s[k]),
        a < s.len() ==> !is_space(s[a]),
    ensures
        trim_front(s) == s.skip(a),
    decreases s.len(),
{
    if s.len() == 0 {
        assert(s.skip(0) =~= s);
    } else if is_space(s[0]) {
        assert(a != 0);
        lemma_trim_front_is(s.drop_first(), a - 1);
        assert(s.drop_first().skip(a - 1) =~= s.skip(a));
    } else {
        assert(a == 0);
        assert(s.skip(0) =~= s);
    }
}

proof fn lemma_trim_back_is(s: Seq<u8>, b: int)
    requires
        0 <= b <= s.len(),
        forall|k: int| b <= k < s.len() ==> is_space(s[k]),
        b > 0 ==> !is_space(s[b - 1]),
    ensures
        trim_back(s) == s.take(b),
    decreases s.len(),
{
    if s.len() == 0 {
        assert(s.take(0) =~= s);
    } else if is_space(s.last()) {
        assert(b != s.len());
        lemma_trim_back_is(s.drop_last(), b);
        assert(s.drop_last().take(b) =~= s.take(b));
    } else {
        assert(b == s.len());
        assert(s.take(b) =~= s);
    }
}

/// Removes leading and trailing whitespace.
pub fn trim_bytes(s: &[u8]) -> (r: Vec<u8>)
    ensures
        r@ == spec_trim(s@),
{
    let n = s.len();
    let mut a: usize = 0;
    while a < n && byte_is_space(byte_at(s, a))
        invariant
            n == s@.len(),
            a <= n,
            forall|k: int| 0 <= k < a ==> is_space(s@[k]),
        decreases n - a,
    {
        a = a + 1;
    }
    let mut b: usize = n;
    while b > a && byte_is_space(byte_at(s, b - 1))
        invariant
            n == s@.len(),
            a <= b <= n,
            forall|k: int| b <= k < n ==> is_space(s@[k]),
        decreases b,
    {
        b = b - 1;
    }
    proof {
        lemma_trim_front_is(s@, a as int);
        if a == n {
            assert(s@.skip(a as int) =~= Seq::<u8>::empty());
            assert(b == a);
            lemma_trim_back_is(s@.skip(a as int), 0);
        } else {
            lemma_trim_back_is(s@.skip(a as int), b - a);
        }
        assert(s@.skip(a as int).take(b - a) =~= s@.subrange(a as int, b as int));
    }
    let mut r: Vec<u8> = Vec::new();
    push_all(&mut r, slice_subrange(s, a, b));
    proof {
        assert(r@ =~= spec_trim(s@));
    }
    r
}

/// Whether `p` is a prefix of `s`.
pub open spec fn spec_starts_with(s: Seq<u8>, p: Seq<u8>) -> bool {
    p.len() <= s.len() && s.take(p.len() as int) == p
}

pub fn starts_with(s: &[u8], p: &[u8]) -> (r: bool)
    ensures
        r == spec_starts_with(s@, p@),
{
    let m = p.len();
    if m > s.len() {
        return false;
    }
    let mut i: usize = 0;
    while i < m
        invariant
            m == p@.len(),
            m <= s@.len(),
            i <= m,
            forall|k: int| 0 <= k < i ==> s@[k] == p@[k],
        decreases m - i,
    {
        if byte_at(s, i) != byte_at(p, i) {
            proof {
                assert(s@.take(m as int)[i as int] != p@[i as int]);
            }
            return false;
        }
        i = i + 1;
    }
    proof {
        assert(s@.take(m as int) =~= p@);
    }
    true
}

/// Whether two byte strings are equal.
pub fn bytes_eq(a: &[u8], b: &[u8]) -> (r: bool)
    ensures
        r == (a@ == b@),
{
    let n = a.len();
    if n != b.len() {
        return false;
    }
    let mut i: usize = 0;
    while i < n
        invariant
            n == a@.len(),
            n == b@.len(),
            i <= n,
            forall|k: int| 0 <= k < i ==> a@[k] == b@[k],
        decreases n - i,
    {
        if byte_at(a, i) != byte_at(b, i) {
            return false;
        }
        i = i + 1;
    }
    proof {
        assert(a@ =~= b@);
    }
    true
}

/// Whether `p` occurs in `s` starting at index `i`.
pub open spec fn contains_at(s: Seq<u8>, p: Seq<u8>, i: int) -> bool {
    0 <= i && i + p.len() <= s.len() && s.subrange(i, i + p.len()) == p
}

/// Whether `p` occurs somewhere in `s`.
pub open spec fn spec_contains(s: Seq<u8>, p: Seq<u8>) -> bool {
    exists|i: int| contains_at(s, p, i)
}

pub fn contains_seq(s: &[u8], p: &[u8]) -> (r: bool)
    ensures
        r == spec_contains(s@, p@),
{
    let n = s.len();
    let m = p.len();
    if m > n {
        proof {
            assert(forall|i: int| !contains_at(s@, p@, i));
        }
        return false;
    }
    if m == 0 {
        proof {
            assert(s@.subrange(0, 0) =~= p@);
            assert(contains_at(s@, p@, 0));
        }
        return true;
    }
    let mut i: usize = 0;
    while i <= n - m
        invariant
            n == s@.len(),
            m == p@.len(),
            0 < m <= n,
            i <= n - m + 1,
            forall|k: int| 0 <= k < i ==> !contains_at(s@, p@, k),
        decreases n - i,
    {
        if starts_with(slice_subrange(s, i, n), p) {
            proof {
                assert(s@.subrange(i as int, n as int).take(m as int) =~= s@.subrange(
                    i as int,
                    i + m,
                ));
                assert(contains_at(s@, p@, i as int));
            }
            return true;
        }
        proof {
            assert(s@.subrange(i as int, n as int).take(m as int) =~= s@.subrange(i as int, i + m));
            assert(!contains_at(s@, p@, i as int));
        }
        i = i + 1;
    }
    proof {
        assert(forall|k: int| k > n - m ==> !contains_at(s@, p@, k));
    }
    false
}

/// The index of the first occurrence of `b`, if any.
pub fn find_byte(s: &[u8], b: u8) -> (r: Option<usize>)
    ensures
        match r {
            Some(i) => i < s@.len() && s@[i as int] == b && forall|k: int|
                0 <= k < i ==> s@[k] != b,
            None => forall|k: int| 0 <= k < s@.len() ==> s@[k] != b,
        },
{
    let n = s.len();
    let mut i: usize = 0;
    while i < n
        invariant
            n == s@.len(),
            i <= n,
            forall|k: int| 0 <= k < i ==> s@[k] != b,
        decreases n - i,
    {
        if byte_at(s, i) == b {
            return Some(i);
        }
        i = i + 1;
    }
    None
}

/// The index of the first `b` in `s`, or the length if there is none.
pub open spec fn idx_of(s: Seq<u8>, b: u8) -> int
    decreases s.len(),
{
    if s.len() == 0 {
        0
    } else if s[0] == b {
        0
    } else {
        1 + idx_of(s.drop_first(), b)
    }
}

/// `idx_of` is the unique position with no occurrence before it.
pub proof fn lemma_idx_of_is(s: Seq<u8>, b: u8, m: int)
    requires
        0 <= m <= s.len(),
        forall|k: int| 0 <= k < m ==> s[k] != b,
        m < s.len() ==> s[m] == b,
    ensures
        idx_of(s, b) == m,
    decreases s.len(),
{
    if s.len() == 0 {
    } else if s[0] == b {
        assert(m == 0);
    } else {
        assert(m != 0);
        lemma_idx_of_is(s.drop_first(), b, m - 1);
    }
}

/// The first of the lines that starts with `p`, if any.
pub open spec fn first_with_prefix(ls: Seq<Seq<u8>>, p: Seq<u8>) -> Option<Seq<u8>>
    decreases ls.len(),
{
    if ls.len() == 0 {
        None
    } else if spec_starts_with(ls[0], p) {
        Some(ls[0])
    } else {
        first_with_prefix(ls.drop_first(), p)
    }
}

/// Finds the first line with prefix `p`; returns its index.
pub fn find_line_with_prefix(lines: &Vec<Vec<u8>>, p: &[u8]) -> (r: Option<usize>)
    ensures
        match r {
            Some(i) => i < lines@.len() && first_with_prefix(lines.deep_view(), p@) == Some(
                lines.deep_view()[i as int],
            ),
            None => first_with_prefix(lines.deep_view(), p@) is None,
        },
{
    let ghost dv = lines.deep_view();
    let n = lines.len();
    let mut i: usize = 0;
    proof {
        assert(dv.skip(0) =~~= dv);
    }
    while i < n
        invariant
            n == lines@.len(),
            i <= n,
            dv == lines.deep_view(),
            first_with_prefix(dv, p@) == first_with_prefix(dv.skip(i as int), p@),
        decreases n - i,
    {
        proof {
            assert(dv[i as int] =~= lines@[i as int]@);
        }
        if starts_with(lines[i].as_slice(), p) {
            proof {
                assert(first_with_prefix(dv.skip(i as int), p@) == Some(dv[i as int]));
            }
            return Some(i);
        }
        proof {
            assert(dv.skip(i as int).drop_first() =~~= dv.skip(i + 1));
        }
        i = i + 1;
    }
    proof {
        assert(dv.skip(n as int) =~~= Seq::<Seq<u8>>::empty());
    }
    None
}

/// What stands between the first colon of the line and the next colon
/// or the line's end, trimmed; nothing if the line has no colon.
pub open spec fn spec_field_after_colon(l: Seq<u8>) -> Option<Seq<u8>> {
    let k = idx_of(l, 58);
    if k == l.len() {
        None
    } else {
        let rest = l.skip(k + 1);
        Some(spec_trim(rest.take(idx_of(rest, 58))))
    }
}

/// Extracts the value part of a `key: value` line.
pub fn field_after_colon(l: &[u8]) -> (r: Option<Vec<u8>>)
    ensures
        match r {
            Some(v) => spec_field_after_colon(l@) == Some(v@),
            None => spec_field_after_colon(l@) is None,
        },
{
    match find_byte(l, 58) {
        Some(i) => {
            let n = l.len();
            proof {
                lemma_idx_of_is(l@, 58, i as int);
                assert(i < n);
            }
            let rest = slice_subrange(l, i + 1, n);
            proof {
                assert(rest@ =~= l@.skip(i + 1));
            }
            let end = match find_byte(rest, 58) {
                Some(j) => {
                    proof {
                        lemma_idx_of_is(rest@, 58, j as int);
                    }
                    j
                },
                None => {
                    proof {
                        lemma_idx_of_is(rest@, 58, rest@.len() as int);
                    }
                    rest.len()
                },
            };
            let value = slice_subrange(rest, 0, end);
            proof {
                assert(value@ =~= rest@.take(end as int));
            }
            Some(trim_bytes(value))
        },
        None => {
            proof {
                lemma_idx_of_is(l@, 58, l@.len() as int);
            }
            None
        },
    }
}

/// A token that can stand as a number in a JSON text: one or more
/// digits, optionally a dot followed by one or more digits.
pub open spec fn is_json_number(t: Seq<u8>) -> bool {
    let k = idx_of(t, 46);
    let ip = t.take(k);
    let fp = if k == t.len() {
        Seq::<u8>::empty()
    } else {
        t.skip(k + 1)
    };
    ip.len() > 0 && all_digits(ip) && (k == t.len() || (fp.len() > 0 && all_digits(fp)))
}

/// Whether `t` can stand as a number in a JSON text.
pub fn check_json_number(t: &[u8]) -> (r: bool)
    ensures
        r == is_json_number(t@),
{
    let n = t.len();
    let k = match find_byte(t, 46) {
        Some(i) => {
            proof {
                lemma_idx_of_is(t@, 46, i as int);
            }
            i
        },
        None => {
            proof {
                lemma_idx_of_is(t@, 46, n as int);
            }
            n
        },
    };
    let ip = slice_subrange(t, 0, k);
    proof {
        assert(ip@ =~= t@.take(k as int));
    }
    if k == 0 || !forall_digits_check(ip) {
        return false;
    }
    if k == n {
        return true;
    }
    let fp = slice_subrange(t, k + 1, n);
    proof {
        assert(fp@ =~= t@.skip(k + 1));
    }
    fp.len() > 0 && forall_digits_check(fp)
}

/// The lines joined back with single line feeds, no trailing line feed.
pub open spec fn spec_join_lines(ls: Seq<Seq<u8>>) -> Seq<u8>
    decreases ls.len(),
{
    if ls.len() == 0 {
        seq![]
    } else if ls.len() == 1 {
        ls[0]
    } else {
        spec_join_lines(ls.drop_last()) + seq![NL] + ls.last()
    }
}

/// Joins byte strings with line feeds.
pub fn join_lines(ls: &Vec<Vec<u8>>) -> (r: Vec<u8>)
    ensures
        r@ == spec_join_lines(ls.deep_view()),
{
    let n = ls.len();
    let mut r: Vec<u8> = Vec::new();
    let mut i: usize = 0;
    proof {
        assert(ls.deep_view().take(0) =~~= Seq::<Seq<u8>>::empty());
    }
    while i < n
        invariant
            n == ls@.len(),
            i <= n,
            r@ == spec_join_lines(ls.deep_view().take(i as int)),
        decreases n - i,
    {
        if i > 0 {
            r.push(NL);
        }
        let ghost before = r@;
        push_all(&mut r, ls[i].as_slice());
        proof {
            let lv = ls.deep_view();
            assert(ls[i as int].deep_view() =~= ls[i as int]@);
            assert(lv.take(i + 1).drop_last() =~~= lv.take(i as int));
            assert(lv.take(i + 1).last() == lv[i as int]);
            if i == 0 {
                assert(r@ =~= spec_join_lines(lv.take(1)));
            } else {
                assert(r@ =~= spec_join_lines(lv.take(i as int)) + seq![NL] + lv[i as int]);
            }
        }
        i = i + 1;
    }
    proof {
        assert(ls.deep_view().take(n as int) =~~= ls.deep_view());
    }
    r
}

} // verus!
