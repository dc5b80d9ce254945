//! ASCII text utilities shared by the protocol and record modules.
//!
//! All wire and record text in this crate is byte-oriented: engine
//! protocol lines, FEN strings, UCI moves and record output are `Vec<u8>`
//! values whose mathematical model is `Seq<u8>`.  This module holds the
//! shared helpers: keyword comparison against ASCII string literals,
//! decimal formatting and parsing, and whitespace tokenization.

use vstd::prelude::*;
use vstd::string::StringSliceAdditionalSpecFns;

verus! {

broadcast use vstd::string::is_ascii_spec_bytes;

/// Protocol whitespace: space, tab, carriage return, line feed.
pub open spec fn is_ws(b: u8) -> bool {
    b == 32 || b == 9 || b == 13 || b == 10
}

pub open spec fn is_digit(b: u8) -> bool {
    48 <= b && b <= 57
}

pub fn ws_byte(b: u8) -> (r: bool)
    ensures
        r == is_ws(b),
{
    b == 32 || b == 9 || b == 13 || b == 10
}

/// The byte sequence of an ASCII string literal; the bridge between the
/// `&str` literals the sources are written with and the byte model.
pub open spec fn ascii_seq(s: &str) -> Seq<u8> {
    Seq::new(s@.len(), |i: int| s@[i] as u8)
}

/// Bytes of an ASCII string slice, as a fresh vector.
pub fn ascii_bytes(s: &str) -> (r: Vec<u8>)
    requires
        vstd::string::is_ascii(s),
    ensures
        r@ == ascii_seq(s),
{
    let b = s.as_bytes();
    let r = vstd::slice::slice_to_vec(b);
    proof {
        assert(r@ =~= ascii_seq(s));
    }
    r
}

/// Appends an ASCII string to a byte buffer.
pub fn push_ascii(v: &mut Vec<u8>, s: &str)
    requires
        vstd::string::is_ascii(s),
    ensures
        final(v)@ == old(v)@ + ascii_seq(s),
{
    let b = s.as_bytes();
    let ghost orig = v@;
    let mut i: usize = 0;
    while i < b.len()
        invariant
            i <= b@.len(),
            b@ == ascii_seq(s),
            v@ == orig + b@.take(i as int),
        decreases b@.len() - i,
    {
        v.push(b[i]);
        proof {
            assert(orig + b@.take(i as int) + seq![b@[i as int]] =~= orig + b@.take(
                i as int + 1,
            ));
        }
        i = i + 1;
    }
    proof {
        assert(orig + b@.take(b@.len() as int) =~= orig + ascii_seq(s));
    }
}

/// Equality of two byte vectors, at the level of their sequences.
pub fn bytes_eq(a: &Vec<u8>, b: &Vec<u8>) -> (r: bool)
    ensures
        r == (a@ == b@),
{
    if a.len() != b.len() {
        return false;
    }
    let mut i: usize = 0;
    while i < a.len()
        invariant
            i <= a@.len(),
            a@.len() == b@.len(),
            forall|j: int| 0 <= j < i ==> a@[j] == b@[j],
        decreases a@.len() - i,
    {
        if a[i] != b[i] {
            return false;
        }
        i = i + 1;
    }
    proof {
        assert(a@ =~= b@);
    }
    true
}

/// Does a byte token equal an ASCII keyword?
pub fn token_is(t: &Vec<u8>, kw: &str) -> (r: bool)
    requires
        vstd::string::is_ascii(kw),
    ensures
        r == (t@ == ascii_seq(kw)),
{
    let b = kw.as_bytes();
    if t.len() != b.len() {
        proof {
            assert(t@ != ascii_seq(kw));
        }
        return false;
    }
    let mut i: usize = 0;
    while i < t.len()
        invariant
            i <= t@.len(),
            t@.len() == b@.len(),
            b@ == ascii_seq(kw),
            forall|j: int| 0 <= j < i ==> t@[j] == b@[j],
        decreases t@.len() - i,
    {
        if t[i] != b[i] {
            proof {
                assert(t@ != ascii_seq(kw));
            }
            return false;
        }
        i = i + 1;
    }
    proof {
        assert(t@ =~= ascii_seq(kw));
    }
    true
}

/// Does the byte sequence start with the given ASCII prefix?
pub open spec fn spec_starts_with(v: Seq<u8>, p: Seq<u8>) -> bool {
    v.len() >= p.len() && v.take(p.len() as int) == p
}

pub fn starts_with_ascii(v: &Vec<u8>, p: &str) -> (r: bool)
    requires
        vstd::string::is_ascii(p),
    ensures
        r == spec_starts_with(v@, ascii_seq(p)),
{
    let b = p.as_bytes();
    if v.len() < b.len() {
        return false;
    }
    let mut i: usize = 0;
    while i < b.len()
        invariant
            i <= b@.len(),
            v@.len() >= b@.len(),
            b@ == ascii_seq(p),
            forall|j: int| 0 <= j < i ==> v@[j] == b@[j],
        decreases b@.len() - i,
    {
        if v[i] != b[i] {
            proof {
                assert(v@.take(b@.len() as int)[i as int] != b@[i as int]);
            }
            return false;
        }
        i = i + 1;
    }
    proof {
        assert(v@.take(b@.len() as int) =~= b@);
    }
    true
}

/// Decimal digits of a natural number, most significant first.
pub open spec fn spec_dec_digits(n: nat) -> Seq<u8>
    decreases n,
{
    if n < 10 {
        seq![(48 + n) as u8]
    } else {
        spec_dec_digits(n / 10).push((48 + n % 10) as u8)
    }
}

/// Formats an unsigned number in decimal.
pub fn u64_to_dec(n: u64) -> (r: Vec<u8>)
    ensures
        r@ == spec_dec_digits(n as nat),
    decreases n,
{
    if n < 10 {
        let mut v: Vec<u8> = Vec::new();
        v.push(48 + n as u8);
        proof {
            assert(v@ =~= spec_dec_digits(n as nat));
        }
        v
    } else {
        let mut v = u64_to_dec(n / 10);
        v.push(48 + (n % 10) as u8);
        proof {
            assert(v@ =~= spec_dec_digits(n as nat));
        }
        v
    }
}

/// Appends a decimal rendering to a byte buffer.
pub fn push_dec(v: &mut Vec<u8>, n: u64)
    ensures
        final(v)@ == old(v)@ + spec_dec_digits(n as nat),
{
    let d = u64_to_dec(n);
    let ghost orig = v@;
    let mut i: usize = 0;
    while i < d.len()
        invariant
            i <= d@.len(),
            d@ == spec_dec_digits(n as nat),
            v@ == orig + d@.take(i as int),
        decreases d@.len() - i,
    {
        v.push(d[i]);
        proof {
            assert(orig + d@.take(i as int) + seq![d@[i as int]] =~= orig + d@.take(
                i as int + 1,
            ));
        }
        i = i + 1;
    }
    proof {
        assert(orig + d@.take(d@.len() as int) =~= orig + d@);
    }
}

pub open spec fn all_digits(s: Seq<u8>) -> bool {
    forall|i: int| 0 <= i < s.len() ==> is_digit(#[trigger] s[i])
}

/// The numeric value of a digit string (most significant first).
pub open spec fn spec_dec_val(s: Seq<u8>) -> int
    decreases s.len(),
{
    if s.len() == 0 {
        0
    } else {
        spec_dec_val(s.drop_last()) * 10 + (s.last() - 48)
    }
}

pub proof fn lemma_dec_val_nonneg(s: Seq<u8>)
    requires
        all_digits(s),
    ensures
        spec_dec_val(s) >= 0,
    decreases s.len(),
{
    if s.len() > 0 {
        assert(all_digits(s.drop_last()));
        lemma_dec_val_nonneg(s.drop_last());
    }
}

pub proof fn lemma_dec_val_step(s: Seq<u8>, i: int)
    requires
        0 <= i < s.len(),
    ensures
        spec_dec_val(s.take(i + 1)) == spec_dec_val(s.take(i)) * 10 + (s[i] - 48),
{
    assert(s.take(i + 1).drop_last() =~= s.take(i));
    assert(s.take(i + 1).last() == s[i]);
}

pub proof fn lemma_dec_val_prefix_mono(s: Seq<u8>, i: int)
    requires
        all_digits(s),
        0 <= i <= s.len(),
    ensures
        spec_dec_val(s.take(i)) <= spec_dec_val(s),
    decreases s.len() - i,
{
    if i < s.len() {
        lemma_dec_val_step(s, i);
        assert(all_digits(s.take(i)));
        lemma_dec_val_nonneg(s.take(i));
        lemma_dec_val_prefix_mono(s, i + 1);
    } else {
        assert(s.take(i) =~= s);
    }
}

/// Parses an unsigned decimal number spanning the whole suffix of `s`
/// that starts at `from`; rejects empty input, non-digits and overflow.
pub fn parse_u64_from(s: &Vec<u8>, from: usize) -> (r: Option<u64>)
    requires
        from <= s@.len(),
    ensures
        r matches Some(v) ==> {
            let t = s@.skip(from as int);
            t.len() > 0 && all_digits(t) && v as int == spec_dec_val(t)
        },
        r is None ==> {
            let t = s@.skip(from as int);
            t.len() == 0 || !all_digits(t) || spec_dec_val(t) > u64::MAX
        },
{
    let ghost t = s@.skip(from as int);
    if from == s.len() {
        return None;
    }
    let mut acc: u64 = 0;
    let mut i: usize = from;
    while i < s.len()
        invariant
            from <= i <= s@.len(),
            t == s@.skip(from as int),
            all_digits(t.take(i - from)),
            acc as int == spec_dec_val(t.take(i - from)),
        decreases s@.len() - i,
    {
        let b = s[i];
        proof {
            assert(t[i - from] == s@[i as int]);
        }
        if !(48 <= b && b <= 57) {
            proof {
                assert(!is_digit(t[i - from]));
            }
            return None;
        }
        let d = (b - 48) as u64;
        proof {
            lemma_dec_val_step(t, i - from);
        }
        if acc > (u64::MAX - d) / 10 {
            proof {
                assert(acc as int * 10 + d as int > u64::MAX) by (nonlinear_arith)
                    requires
                        acc as int > (u64::MAX - d as int) / 10,
                        0 <= d as int <= 9,
                        acc as int >= 0,
                ;
                assert(all_digits(t.take(i - from + 1)));
                if all_digits(t) {
                    lemma_dec_val_prefix_mono(t, i - from + 1);
                }
            }
            return None;
        }
        proof {
            assert(acc as int * 10 + d as int <= u64::MAX) by (nonlinear_arith)
                requires
                    acc as int <= (u64::MAX - d as int) / 10,
                    0 <= d as int <= 9,
                    acc as int >= 0,
            ;
        }
        acc = acc * 10 + d;
        i = i + 1;
    }
    proof {
        assert(t.take(i - from) =~= t);
    }
    Some(acc)
}

pub fn parse_u64(s: &Vec<u8>) -> (r: Option<u64>)
    ensures
        r matches Some(v) ==> s@.len() > 0 && all_digits(s@) && v as int == spec_dec_val(s@),
        r is None ==> s@.len() == 0 || !all_digits(s@) || spec_dec_val(s@) > u64::MAX,
{
    let r = parse_u64_from(s, 0);
    proof {
        assert(s@.skip(0) =~= s@);
    }
    r
}

/// The signed decimal integer denoted by `s`: an optional leading minus
/// sign followed by at least one digit.
pub open spec fn spec_parse_int(s: Seq<u8>) -> Option<int> {
    if s.len() > 0 && s[0] == 45 {
        let t = s.skip(1);
        if t.len() > 0 && all_digits(t) {
            Some(-spec_dec_val(t))
        } else {
            None
        }
    } else if s.len() > 0 && all_digits(s) {
        Some(spec_dec_val(s))
    } else {
        None
    }
}

/// Parses a signed decimal number; rejects malformed input and values
/// outside the `i64` range.
pub fn parse_i64(s: &Vec<u8>) -> (r: Option<i64>)
    ensures
        r matches Some(v) ==> spec_parse_int(s@) == Some(v as int),
        r is None ==> spec_parse_int(s@) is None || (spec_parse_int(s@) matches Some(n) && (n
            < i64::MIN || n > i64::MAX)),
{
    if s.len() > 0 && s[0] == 45 {
        match parse_u64_from(s, 1) {
            Some(m) => {
                if m <= i64::MAX as u64 {
                    Some(-(m as i64))
                } else if m == (i64::MAX as u64) + 1 {
                    Some(i64::MIN)
                } else {
                    None
                }
            },
            None => None,
        }
    } else {
        match parse_u64_from(s, 0) {
            Some(m) => {
                proof {
                    assert(s@.skip(0) =~= s@);
                }
                if m <= i64::MAX as u64 {
                    Some(m as i64)
                } else {
                    None
                }
            },
            None => {
                proof {
                    assert(s@.skip(0) =~= s@);
                }
                None
            },
        }
    }
}

/// Parses a signed decimal number that must fit in `i32`.
pub fn parse_i32(s: &Vec<u8>) -> (r: Option<i32>)
    ensures
        r matches Some(v) ==> spec_parse_int(s@) == Some(v as int),
        r is None ==> spec_parse_int(s@) is None || (spec_parse_int(s@) matches Some(n) && (n
            < i32::MIN || n > i32::MAX)),
{
    match parse_i64(s) {
        Some(v) => {
            if i32::MIN as i64 <= v && v <= i32::MAX as i64 {
                Some(v as i32)
            } else {
                None
            }
        },
        None => None,
    }
}

/// The whitespace-separated tokens of a byte sequence, in order; tokens
/// are the maximal runs of non-whitespace bytes.
pub open spec fn spec_tokens(s: Seq<u8>) -> Seq<Seq<u8>>
    decreases s.len(),
{
    if s.len() == 0 {
        Seq::empty()
    } else if is_ws(s[0]) {
        spec_tokens(s.skip(1))
    } else {
        let rest = spec_tokens(s.skip(1));
        if s.len() > 1 && !is_ws(s[1]) {
            seq![seq![s[0]] + rest[0]] + rest.skip(1)
        } else {
            seq![seq![s[0]]] + rest
        }
    }
}

/// A byte sequence that starts with a non-whitespace byte has a first
/// token, and that token starts with the same byte.
pub proof fn lemma_tokens_head(s: Seq<u8>)
    requires
        s.len() > 0,
        !is_ws(s[0]),
    ensures
        spec_tokens(s).len() >= 1,
        spec_tokens(s)[0].len() >= 1,
        spec_tokens(s)[0][0] == s[0],
    decreases s.len(),
{
    if s.len() > 1 && !is_ws(s[1]) {
        lemma_tokens_head(s.skip(1));
    }
}

fn tokenize_from(s: &Vec<u8>, i: usize) -> (r: Vec<Vec<u8>>)
    requires
        i <= s@.len(),
    ensures
        r.deep_view() == spec_tokens(s@.skip(i as int)),
    decreases s@.len() - i,
{
    if i == s.len() {
        let r: Vec<Vec<u8>> = Vec::new();
        proof {
            assert(r.deep_view() =~= spec_tokens(s@.skip(i as int)));
        }
        r
    } else if ws_byte(s[i]) {
        let r = tokenize_from(s, i + 1);
        proof {
            assert(s@.skip(i as int).skip(1) =~= s@.skip(i as int + 1));
        }
        r
    } else {
        let mut rest = tokenize_from(s, i + 1);
        let ghost tail = s@.skip(i as int);
        proof {
            assert(tail.skip(1) =~= s@.skip(i as int + 1));
            assert(tail[0] == s@[i as int]);
        }
        if i + 1 < s.len() && !ws_byte(s[i + 1]) {
            proof {
                assert(tail[1] == s@[i as int + 1]);
                lemma_tokens_head(tail.skip(1));
                assert(rest.deep_view().len() >= 1);
                assert(rest@.len() == rest.deep_view().len());
            }
            let ghost rt = spec_tokens(tail.skip(1));
            let ghost before = rest;
            let mut first = rest.remove(0);
            proof {
                assert(first.deep_view() == before.deep_view()[0]);
                assert(first@ =~= first.deep_view());
                assert(first@ =~= rt[0]);
            }
            first.insert(0, s[i]);
            proof {
                assert(first@ =~= seq![tail[0]] + rt[0]);
            }
            rest.insert(0, first);
            proof {
                let goal = seq![seq![tail[0]] + rt[0]] + rt.skip(1);
                assert forall|j: int| 0 <= j < rest@.len() implies rest.deep_view()[j] == goal[j] by {
                    if j == 0 {
                        assert(rest@[0] == first);
                        assert(first.deep_view() =~= first@);
                    } else {
                        assert(rest@[j] == before@[j]);
                        assert(rest.deep_view()[j] == before.deep_view()[j]);
                    }
                }
                assert(rest.deep_view() =~= goal);
            }
            rest
        } else {
            let ghost rt = spec_tokens(tail.skip(1));
            let ghost before = rest;
            let mut single: Vec<u8> = Vec::new();
            single.push(s[i]);
            rest.insert(0, single);
            proof {
                if tail.len() > 1 {
                    assert(is_ws(tail[1]));
                }
                let goal = seq![seq![tail[0]]] + rt;
                assert forall|j: int| 0 <= j < rest@.len() implies rest.deep_view()[j] == goal[j] by {
                    if j == 0 {
                        assert(rest@[0] == single);
                        assert(single.deep_view() =~= seq![tail[0]]);
                    } else {
                        assert(rest@[j] == before@[j - 1]);
                        assert(rest.deep_view()[j] == before.deep_view()[j - 1]);
                    }
                }
                assert(rest.deep_view() =~= goal);
            }
            rest
        }
    }
}

/// Copies a byte vector.
pub fn copy_bytes(v: &Vec<u8>) -> (r: Vec<u8>)
    ensures
        r@ == v@,
{
    let mut r: Vec<u8> = Vec::new();
    let mut i: usize = 0;
    while i < v.len()
        invariant
            i <= v@.len(),
            r@ == v@.take(i as int),
        decreases v@.len() - i,
    {
        r.push(v[i]);
        proof {
            assert(v@.take(i as int).push(v@[i as int]) =~= v@.take(i as int + 1));
        }
        i = i + 1;
    }
    proof {
        assert(v@.take(v@.len() as int) =~= v@);
    }
    r
}

/// Appends a byte vector to a byte buffer.
pub fn push_bytes(dst: &mut Vec<u8>, src: &Vec<u8>)
    ensures
        final(dst)@ == old(dst)@ + src@,
{
    let ghost orig = dst@;
    let mut i: usize = 0;
    while i < src.len()
        invariant
            i <= src@.len(),
            dst@ == orig + src@.take(i as int),
        decreases src@.len() - i,
    {
        dst.push(src[i]);
        proof {
            assert(orig + src@.take(i as int) + seq![src@[i as int]] =~= orig + src@.take(
                i as int + 1,
            ));
        }
        i = i + 1;
    }
    proof {
        assert(orig + src@.take(src@.len() as int) =~= orig + src@);
    }
}

/// Copies a vector of byte tokens.
pub fn copy_tokens(v: &Vec<Vec<u8>>) -> (r: Vec<Vec<u8>>)
    ensures
        r.deep_view() == v.deep_view(),
        r@.len() == v@.len(),
{
    let mut r: Vec<Vec<u8>> = Vec::new();
    let mut i: usize = 0;
    while i < v.len()
        invariant
            i <= v@.len(),
            r@.len() == i,
            forall|j: int| 0 <= j < i ==> r.deep_view()[j] == v.deep_view()[j],
        decreases v@.len() - i,
    {
        let t = copy_bytes(&v[i]);
        let ghost r0 = r@;
        r.push(t);
        proof {
            assert(v@[i as int]@ == v.deep_view()[i as int]);
            assert forall|j: int| 0 <= j < i + 1 implies r.deep_view()[j] == v.deep_view()[j] by {
                if j < i {
                    assert(r@[j] == r0[j]);
                } else {
                    assert(r@[j] == t);
                }
            }
        }
        i = i + 1;
    }
    proof {
        assert(r.deep_view() =~= v.deep_view());
    }
    r
}

/// Splits a byte line into its whitespace-separated tokens.
pub fn tokenize(s: &Vec<u8>) -> (r: Vec<Vec<u8>>)
    ensures
        r.deep_view() == spec_tokens(s@),
{
    let r = tokenize_from(s, 0);
    proof {
        assert(s@.skip(0) =~= s@);
    }
    r
}

} // verus!
