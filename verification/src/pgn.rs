//! The record text: headers in insertion order, the numbered mainline,
//! and the parenthesized alternatives.
//!
//! Headers live in an insertion-ordered map: re-inserting a key keeps
//! its place, a new key goes last, and the header block prints the
//! entries in exactly that order.  The header syntax round-trips: a
//! printed block parses back to the same entries.

use vstd::prelude::*;
use crate::fen::spec_space_from;
use crate::text::push_bytes;
use crate::text::copy_bytes;

verus! {

#[verifier::external_type_specification]
#[verifier::external_body]
#[verifier::reject_recursive_types(K)]
#[verifier::reject_recursive_types(V)]
#[verifier::reject_recursive_types(S)]
pub struct ExIndexMap<K, V, S>(indexmap::IndexMap<K, V, S>);

/// The entries of a header map, as key/value byte strings in insertion
/// order.
pub uninterp spec fn header_entries(m: indexmap::IndexMap<Vec<u8>, Vec<u8>>) -> Seq<
    (Seq<u8>, Seq<u8>),
>;

/// The position of a key among entries, or a negative number when it is
/// absent.
pub open spec fn spec_key_index(es: Seq<(Seq<u8>, Seq<u8>)>, k: Seq<u8>) -> int
    decreases es.len(),
{
    if es.len() == 0 {
        -1
    } else if es[0].0 == k {
        0
    } else {
        let r = spec_key_index(es.skip(1), k);
        if r < 0 {
            -1
        } else {
            r + 1
        }
    }
}

/// What inserting does to the entries: an existing key keeps its place
/// and takes the new value, a new key is appended last.
pub open spec fn spec_entries_insert(
    es: Seq<(Seq<u8>, Seq<u8>)>,
    k: Seq<u8>,
    v: Seq<u8>,
) -> Seq<(Seq<u8>, Seq<u8>)> {
    let i = spec_key_index(es, k);
    if i < 0 {
        es.push((k, v))
    } else {
        es.update(i, (k, v))
    }
}

/// Relies on indexmap's `IndexMap::new`: the new map has no entries.
#[verifier::external_body]
pub(crate) fn header_map_new() -> (m: indexmap::IndexMap<Vec<u8>, Vec<u8>>)
    ensures
        header_entries(m) == Seq::<(Seq<u8>, Seq<u8>)>::empty(),
{
    indexmap::IndexMap::new()
}

/// Relies on indexmap's `IndexMap::insert`: an existing key keeps its
/// position and gets the new value; a new key is appended last.
#[verifier::external_body]
pub(crate) fn header_map_insert(
    m: &mut indexmap::IndexMap<Vec<u8>, Vec<u8>>,
    k: Vec<u8>,
    v: Vec<u8>,
)
    ensures
        header_entries(*final(m)) == spec_entries_insert(header_entries(*old(m)), k@, v@),
{
    m.insert(k, v);
}

/// Relies on indexmap's iteration order: entries come out in insertion
/// order.
#[verifier::external_body]
pub(crate) fn header_map_pairs(m: &indexmap::IndexMap<Vec<u8>, Vec<u8>>) -> (r: Vec<
    (Vec<u8>, Vec<u8>),
>)
    ensures
        r@.len() == header_entries(*m).len(),
        forall|i: int|
            0 <= i < r@.len() ==> (#[trigger] r@[i]).0@ == header_entries(*m)[i].0 && r@[i].1@
                == header_entries(*m)[i].1,
{
    m.iter().map(|(k, v)| (k.clone(), v.clone())).collect()
}

/// The entry view of a vector of byte pairs.
pub open spec fn spec_pairs_view(ps: Seq<(Vec<u8>, Vec<u8>)>) -> Seq<(Seq<u8>, Seq<u8>)> {
    Seq::new(ps.len(), |i: int| (ps[i].0@, ps[i].1@))
}

/// One header line without its line feed: `[Key "Value"]`.
pub open spec fn spec_header_line_body(k: Seq<u8>, v: Seq<u8>) -> Seq<u8> {
    seq![91u8] + k + seq![32u8, 34u8] + v + seq![34u8, 93u8]
}

/// The header block: one line per entry, each ended by a line feed.
pub open spec fn spec_header_block(es: Seq<(Seq<u8>, Seq<u8>)>) -> Seq<u8>
    decreases es.len(),
{
    if es.len() == 0 {
        Seq::empty()
    } else {
        spec_header_line_body(es[0].0, es[0].1) + seq![10u8] + spec_header_block(es.skip(1))
    }
}

/// Prints the header block of a list of entries.
pub fn format_headers(pairs: &Vec<(Vec<u8>, Vec<u8>)>) -> (r: Vec<u8>)
    ensures
        r@ == spec_header_block(spec_pairs_view(pairs@)),
{
    let ghost es = spec_pairs_view(pairs@);
    let mut out: Vec<u8> = Vec::new();
    let mut i: usize = 0;
    proof {
        assert(es.skip(0) =~= es);
        assert(Seq::<u8>::empty() + spec_header_block(es) =~= spec_header_block(es));
    }
    while i < pairs.len()
        invariant
            i <= pairs@.len(),
            es == spec_pairs_view(pairs@),
            spec_header_block(es) == out@ + spec_header_block(es.skip(i as int)),
        decreases pairs@.len() - i,
    {
        let ghost out0 = out@;
        out.push(91);
        push_bytes(&mut out, &pairs[i].0);
        out.push(32);
        out.push(34);
        push_bytes(&mut out, &pairs[i].1);
        out.push(34);
        out.push(93);
        out.push(10);
        proof {
            assert(out@ =~= out0 + (spec_header_line_body(es[i as int].0, es[i as int].1) + seq![
                10u8,
            ]));
            assert(es.skip(i as int)[0] == es[i as int]);
            assert(es.skip(i as int).skip(1) =~= es.skip(i as int + 1));
            assert(spec_header_block(es) =~= out@ + spec_header_block(es.skip(i as int + 1)));
        }
        i = i + 1;
    }
    proof {
        assert(es.skip(es.len() as int) =~= Seq::<(Seq<u8>, Seq<u8>)>::empty());
        assert(out@ =~= out@ + spec_header_block(es.skip(es.len() as int)));
    }
    out
}

/// Parses one header line body back into its key and value: the key is
/// everything between the bracket and the first space, the value sits
/// between the quote after the space and the closing quote-bracket.
pub open spec fn spec_parse_header_line(t: Seq<u8>) -> Option<(Seq<u8>, Seq<u8>)> {
    let s = spec_space_from(t, 0);
    if t.len() >= 2 && t[0] == 91 && 2 <= s && s + 1 < t.len() && t[s + 1] == 34 && s + 2 <= t.len()
        - 2 && t[t.len() - 2] == 34 && t[t.len() - 1] == 93 {
        Some((t.subrange(1, s), t.subrange(s + 2, t.len() - 2)))
    } else {
        None
    }
}

pub fn parse_header_line(line: &Vec<u8>) -> (r: Option<(Vec<u8>, Vec<u8>)>)
    ensures
        r is Some <==> spec_parse_header_line(line@) is Some,
        r matches Some(kv) ==> spec_parse_header_line(line@) == Some((kv.0@, kv.1@)),
{
    if line.len() < 2 {
        return None;
    }
    let s = crate::fen::find_space(line, 0);
    if !(line[0] == 91 && 2 <= s && line.len() - s > 1) {
        return None;
    }
    if !(line[s + 1] == 34 && line.len() - s >= 4 && line[line.len() - 2] == 34
        && line[line.len() - 1] == 93) {
        return None;
    }
    let mut k: Vec<u8> = Vec::new();
    let mut i: usize = 1;
    while i < s
        invariant
            1 <= i <= s,
            s < line@.len(),
            k@ == line@.subrange(1, i as int),
        decreases s - i,
    {
        k.push(line[i]);
        proof {
            assert(line@.subrange(1, i as int).push(line@[i as int]) =~= line@.subrange(
                1,
                i as int + 1,
            ));
        }
        i = i + 1;
    }
    let mut v: Vec<u8> = Vec::new();
    let mut j: usize = s + 2;
    while j < line.len() - 2
        invariant
            s + 2 <= j <= line@.len() - 2,
            line@.len() >= 2,
            v@ == line@.subrange(s as int + 2, j as int),
        decreases line@.len() - 2 - j,
    {
        v.push(line[j]);
        proof {
            assert(line@.subrange(s as int + 2, j as int).push(line@[j as int]) =~= line@.subrange(
                s as int + 2,
                j as int + 1,
            ));
        }
        j = j + 1;
    }
    Some((k, v))
}

/// Index of the first line feed at or after `i`, or the length.
pub open spec fn spec_nl_from(s: Seq<u8>, i: int) -> int
    recommends
        0 <= i <= s.len(),
    decreases s.len() - i when 0 <= i <= s.len()
{
    if i >= s.len() {
        s.len() as int
    } else if s[i] == 10 {
        i
    } else {
        spec_nl_from(s, i + 1)
    }
}

pub proof fn lemma_nl_from_bounds(s: Seq<u8>, i: int)
    requires
        0 <= i <= s.len(),
    ensures
        i <= spec_nl_from(s, i) <= s.len(),
    decreases s.len() - i,
{
    if i < s.len() && s[i] != 10 {
        lemma_nl_from_bounds(s, i + 1);
    }
}

pub proof fn lemma_nl_at(s: Seq<u8>, i: int, k: int)
    requires
        0 <= i <= k < s.len(),
        s[k] == 10,
        forall|j: int| i <= j < k ==> s[j] != 10,
    ensures
        spec_nl_from(s, i) == k,
    decreases k - i,
{
    if i < k {
        lemma_nl_at(s, i + 1, k);
    }
}

pub fn find_nl(s: &Vec<u8>, from: usize) -> (r: usize)
    requires
        from <= s@.len(),
    ensures
        r as int == spec_nl_from(s@, from as int),
        from <= r <= s@.len(),
{
    let mut i: usize = from;
    while i < s.len()
        invariant
            from <= i <= s@.len(),
            spec_nl_from(s@, from as int) == spec_nl_from(s@, i as int),
        decreases s@.len() - i,
    {
        if s[i] == 10 {
            return i;
        }
        i = i + 1;
    }
    i
}

/// The header entries read back from a text: consecutive bracketed
/// lines from the start, each a well-formed header line, up to the
/// first line that is not one.
pub open spec fn spec_parse_headers(t: Seq<u8>) -> Seq<(Seq<u8>, Seq<u8>)>
    decreases t.len(),
    via spec_parse_headers_dec
{
    if t.len() == 0 || t[0] != 91 {
        Seq::empty()
    } else {
        let nl = spec_nl_from(t, 0);
        match spec_parse_header_line(t.take(nl)) {
            Some(kv) => {
                let nxt = if nl < t.len() {
                    nl + 1
                } else {
                    nl
                };
                seq![kv] + spec_parse_headers(t.skip(nxt))
            },
            None => Seq::empty(),
        }
    }
}

#[via_fn]
proof fn spec_parse_headers_dec(t: Seq<u8>) {
    if t.len() > 0 && t[0] == 91 {
        lemma_nl_from_bounds(t, 1);
        assert(spec_nl_from(t, 0) == spec_nl_from(t, 1));
    }
}

/// Headers that print and parse cleanly: a non-empty key without
/// spaces or line feeds, and a value without line feeds.
pub open spec fn spec_header_wf(k: Seq<u8>, v: Seq<u8>) -> bool {
    &&& k.len() > 0
    &&& forall|i: int| 0 <= i < k.len() ==> #[trigger] k[i] != 32 && k[i] != 10
    &&& forall|i: int| 0 <= i < v.len() ==> #[trigger] v[i] != 10
}

/// A printed well-formed header line parses back to its key and value.
pub proof fn lemma_header_line_round_trip(k: Seq<u8>, v: Seq<u8>)
    requires
        spec_header_wf(k, v),
    ensures
        spec_parse_header_line(spec_header_line_body(k, v)) == Some((k, v)),
{
    let t = spec_header_line_body(k, v);
    assert(t.len() == k.len() + v.len() + 5);
    assert(t[0] == 91);
    assert forall|j: int| 0 <= j < 1 + k.len() implies t[j] != 32 by {
        if j >= 1 {
            assert(t[j] == k[j - 1]);
        }
    }
    assert(t[1 + k.len() as int] == 32);
    lemma_space_at(t, 0, 1 + k.len() as int);
    assert(t[k.len() as int + 2] == 34);
    assert(t[t.len() - 2] == 34);
    assert(t[t.len() - 1] == 93);
    assert(t.subrange(1, 1 + k.len() as int) =~= k);
    assert(t.subrange(k.len() as int + 3, t.len() - 2) =~= v);
}

proof fn lemma_space_at(s: Seq<u8>, i: int, k: int)
    requires
        0 <= i <= k < s.len(),
        s[k] == 32,
        forall|j: int| i <= j < k ==> s[j] != 32,
    ensures
        spec_space_from(s, i) == k,
    decreases k - i,
{
    if i < k {
        lemma_space_at(s, i + 1, k);
    }
}

/// The printed header block of well-formed entries parses back to the
/// same entries, in the same insertion order.
pub proof fn lemma_header_block_round_trip(es: Seq<(Seq<u8>, Seq<u8>)>)
    requires
        forall|i: int|
            0 <= i < es.len() ==> spec_header_wf(
                (#[trigger] es[i]).0,
                es[i].1,
            ),
    ensures
        spec_parse_headers(spec_header_block(es)) == es,
    decreases es.len(),
{
    if es.len() == 0 {
        assert(spec_parse_headers(spec_header_block(es)) =~= es);
    } else {
        let k = es[0].0;
        let v = es[0].1;
        let body = spec_header_line_body(k, v);
        let rest = spec_header_block(es.skip(1));
        let t = spec_header_block(es);
        assert(t =~= body + seq![10u8] + rest);
        assert(t[0] == 91);
        assert forall|j: int| 0 <= j < body.len() implies t[j] != 10 by {
            assert(t[j] == body[j]);
            if j == 0 {
            } else if j < 1 + k.len() {
                assert(body[j] == k[j - 1]);
            } else if j == 1 + k.len() {
                assert(body[j] == 32);
            } else if j == 2 + k.len() {
                assert(body[j] == 34);
            } else if j < 3 + k.len() + v.len() {
                assert(body[j] == v[j - 3 - k.len()]);
            } else if j == 3 + k.len() + v.len() {
                assert(body[j] == 34);
            } else {
                assert(body[j] == 93);
            }
        }
        assert(t[body.len() as int] == 10);
        lemma_nl_at(t, 0, body.len() as int);
        assert(t.take(body.len() as int) =~= body);
        lemma_header_line_round_trip(k, v);
        assert(t.skip(body.len() as int + 1) =~= rest);
        lemma_header_block_round_trip(es.skip(1));
        assert(spec_parse_headers(t) =~= seq![(k, v)] + es.skip(1));
        assert(seq![(k, v)] + es.skip(1) =~= es);
    }
}

/// Reads the header entries off the front of a record text.
pub fn parse_headers(text: &Vec<u8>) -> (r: Vec<(Vec<u8>, Vec<u8>)>)
    ensures
        spec_pairs_view(r@) == spec_parse_headers(text@),
{
    let mut out: Vec<(Vec<u8>, Vec<u8>)> = Vec::new();
    let mut pos: usize = 0;
    let ghost t = text@;
    proof {
        assert(t.skip(0) =~= t);
        assert(spec_pairs_view(out@) =~= Seq::<(Seq<u8>, Seq<u8>)>::empty());
        assert(spec_pairs_view(out@) + spec_parse_headers(t) =~= spec_parse_headers(t));
    }
    while pos < text.len() && text[pos] == 91
        invariant
            0 <= pos <= t.len(),
            t == text@,
            spec_parse_headers(t) == spec_pairs_view(out@) + spec_parse_headers(
                t.skip(pos as int),
            ),
        decreases t.len() - pos,
    {
        let nl = find_nl(text, pos);
        let ghost sub = t.skip(pos as int);
        proof {
            assert(sub[0] == t[pos as int]);
            // The newline scan of the suffix lands at the same spot.
            lemma_nl_shift(t, pos as int, nl as int);
        }
        let mut line: Vec<u8> = Vec::new();
        let mut i: usize = pos;
        while i < nl
            invariant
                pos <= i <= nl,
                nl <= t.len(),
                t == text@,
                line@ == t.subrange(pos as int, i as int),
            decreases nl - i,
        {
            line.push(text[i]);
            proof {
                assert(t.subrange(pos as int, i as int).push(t[i as int]) =~= t.subrange(
                    pos as int,
                    i as int + 1,
                ));
            }
            i = i + 1;
        }
        proof {
            assert(line@ =~= sub.take(spec_nl_from(sub, 0)));
        }
        match parse_header_line(&line) {
            Some(kv) => {
                let ghost out0 = out@;
                out.push(kv);
                proof {
                    assert(spec_pairs_view(out@) =~= spec_pairs_view(out0).push(
                        (out@.last().0@, out@.last().1@),
                    ));
                }
            },
            None => {
                proof {
                    assert(spec_parse_headers(sub) =~= Seq::<(Seq<u8>, Seq<u8>)>::empty());
                    assert(spec_pairs_view(out@) =~= spec_pairs_view(out@) + spec_parse_headers(
                        sub,
                    ));
                }
                return out;
            },
        }
        let next = if nl < text.len() {
            nl + 1
        } else {
            nl
        };
        proof {
            assert(sub.skip(spec_nl_from(sub, 0) + (if spec_nl_from(sub, 0) < sub.len() {
                1int
            } else {
                0int
            })) =~= t.skip(next as int));
            let kv = spec_parse_header_line(sub.take(spec_nl_from(sub, 0)))->Some_0;
            assert(spec_parse_headers(sub) =~= seq![kv] + spec_parse_headers(t.skip(next as int)));
            assert(spec_pairs_view(out@) =~= spec_pairs_view(out@.drop_last()).push(kv));
            assert(spec_pairs_view(out@.drop_last()).push(kv) + spec_parse_headers(
                t.skip(next as int),
            ) =~= spec_pairs_view(out@.drop_last()) + spec_parse_headers(sub));
        }
        pos = next;
    }
    proof {
        if pos < t.len() {
            assert(t.skip(pos as int)[0] == t[pos as int]);
            assert(spec_parse_headers(t.skip(pos as int)) =~= Seq::<(Seq<u8>, Seq<u8>)>::empty());
        } else {
            assert(t.skip(pos as int).len() == 0);
            assert(spec_parse_headers(t.skip(pos as int)) =~= Seq::<(Seq<u8>, Seq<u8>)>::empty());
        }
        assert(spec_pairs_view(out@) =~= spec_pairs_view(out@) + spec_parse_headers(
            t.skip(pos as int),
        ));
    }
    out
}

/// The newline scan of a suffix finds the same byte as the scan of the
/// whole from that offset.
proof fn lemma_nl_shift(t: Seq<u8>, pos: int, nl: int)
    requires
        0 <= pos <= t.len(),
        nl == spec_nl_from(t, pos),
    ensures
        spec_nl_from(t.skip(pos), 0) == nl - pos,
{
    lemma_nl_from_bounds(t, pos);
    let sub = t.skip(pos);
    if nl < t.len() {
        assert(sub[nl - pos] == t[nl]);
        assert forall|j: int| 0 <= j < nl - pos implies sub[j] != 10 by {
            assert(sub[j] == t[pos + j]);
            lemma_nl_no_hit(t, pos, pos + j, nl);
        }
        assert(t[nl] == 10) by {
            lemma_nl_hit(t, pos, nl);
        }
        lemma_nl_at(sub, 0, nl - pos);
    } else {
        assert forall|j: int| 0 <= j < sub.len() implies sub[j] != 10 by {
            assert(sub[j] == t[pos + j]);
            lemma_nl_no_hit(t, pos, pos + j, nl);
        }
        lemma_nl_none(sub, 0);
    }
}

proof fn lemma_nl_hit(t: Seq<u8>, i: int, nl: int)
    requires
        0 <= i <= t.len(),
        nl == spec_nl_from(t, i),
        nl < t.len(),
    ensures
        t[nl] == 10,
    decreases t.len() - i,
{
    if i < t.len() && t[i] != 10 {
        lemma_nl_hit(t, i + 1, nl);
    }
}

proof fn lemma_nl_no_hit(t: Seq<u8>, i: int, j: int, nl: int)
    requires
        0 <= i <= j < t.len(),
        nl == spec_nl_from(t, i),
        j < nl,
    ensures
        t[j] != 10,
    decreases j - i,
{
    lemma_nl_from_bounds(t, i);
    if i < j {
        lemma_nl_no_hit(t, i + 1, j, nl);
    }
}

proof fn lemma_nl_none(s: Seq<u8>, i: int)
    requires
        0 <= i <= s.len(),
        forall|j: int| 0 <= j < s.len() ==> s[j] != 10,
    ensures
        spec_nl_from(s, i) == s.len(),
    decreases s.len() - i,
{
    if i < s.len() {
        lemma_nl_none(s, i + 1);
    }
}

/// The `FEN` header key, in any letter case.
pub open spec fn spec_is_fen_key(k: Seq<u8>) -> bool {
    k.len() == 3 && (k[0] == 70 || k[0] == 102) && (k[1] == 69 || k[1] == 101) && (k[2] == 78
        || k[2] == 110)
}

/// The value of the first `FEN` header, if any.
pub open spec fn spec_find_fen(es: Seq<(Seq<u8>, Seq<u8>)>) -> Option<Seq<u8>>
    decreases es.len(),
{
    if es.len() == 0 {
        None
    } else if spec_is_fen_key(es[0].0) {
        Some(es[0].1)
    } else {
        spec_find_fen(es.skip(1))
    }
}

/// The number marker in front of the move at mainline index `i`: the
/// very first ply gets `1.` for White to move or `1...` for Black, and
/// every later White move gets its move number at the natural boundary.
pub open spec fn spec_move_marker(i: int, init_white: bool) -> Seq<u8> {
    if i == 0 {
        if init_white {
            crate::text::ascii_seq("1. ")
        } else {
            crate::text::ascii_seq("1... ")
        }
    } else if init_white && i % 2 == 0 {
        crate::text::spec_dec_digits((i / 2 + 1) as nat) + crate::text::ascii_seq(". ")
    } else if !init_white && i % 2 == 1 {
        crate::text::spec_dec_digits(((i + 1) / 2 + 1) as nat) + crate::text::ascii_seq(". ")
    } else {
        Seq::empty()
    }
}

/// The mainline text from index `i` on: marker, short algebraic move,
/// one space each; nothing when a move cannot be rendered or applied.
pub open spec fn spec_mainline_text(
    fen: Seq<u8>,
    ms: Seq<Seq<u8>>,
    i: int,
    init_white: bool,
) -> Option<Seq<u8>>
    decreases ms.len() - i when 0 <= i <= ms.len()
{
    if i >= ms.len() {
        Some(Seq::empty())
    } else {
        match crate::chess::san_of_uci(fen, ms[i]) {
            Some(san) => match crate::chess::fen_after_uci(fen, ms[i]) {
                Some(f2) => match spec_mainline_text(f2, ms, i + 1, init_white) {
                    Some(rest) => Some(
                        spec_move_marker(i, init_white) + san + seq![32u8] + rest,
                    ),
                    None => None,
                },
                None => None,
            },
            None => None,
        }
    }
}

/// The space-separated renderings of parallel alternative moves, all
/// taken from the same branch position.
pub open spec fn spec_sans_spaced(fen: Seq<u8>, ms: Seq<Seq<u8>>, i: int) -> Option<Seq<u8>>
    decreases ms.len() - i when 0 <= i <= ms.len()
{
    if i >= ms.len() {
        Some(Seq::empty())
    } else {
        match crate::chess::san_of_uci(fen, ms[i]) {
            Some(san) => match spec_sans_spaced(fen, ms, i + 1) {
                Some(rest) => Some(
                    san + (if i + 1 < ms.len() {
                        seq![32u8] + rest
                    } else {
                        Seq::empty()
                    }),
                ),
                None => None,
            },
            None => None,
        }
    }
}

/// One alternatives entry rendered parenthesized, branching at its ply
/// of the mainline.
pub open spec fn spec_alt_entry_text(
    start: Seq<u8>,
    ms: Seq<Seq<u8>>,
    ply: int,
    alt_moves: Seq<Seq<u8>>,
) -> Option<Seq<u8>> {
    if !(0 <= ply < ms.len()) {
        None
    } else {
        match crate::builder::spec_chain(start, ms.take(ply)) {
            Some(f) => match spec_sans_spaced(f, alt_moves, 0) {
                Some(inner) => Some(seq![40u8] + inner + seq![41u8, 32u8]),
                None => None,
            },
            None => None,
        }
    }
}

/// All alternatives entries, in order.
pub open spec fn spec_alts_text(
    start: Seq<u8>,
    ms: Seq<Seq<u8>>,
    alts: Seq<(int, Seq<Seq<u8>>)>,
    k: int,
) -> Option<Seq<u8>>
    decreases alts.len() - k when 0 <= k <= alts.len()
{
    if k >= alts.len() {
        Some(Seq::empty())
    } else {
        match spec_alt_entry_text(start, ms, alts[k].0, alts[k].1) {
            Some(t) => match spec_alts_text(start, ms, alts, k + 1) {
                Some(rest) => Some(t + rest),
                None => None,
            },
            None => None,
        }
    }
}

/// Trailing whitespace removed.
pub open spec fn spec_trim_end(s: Seq<u8>) -> Seq<u8>
    decreases s.len(),
{
    if s.len() > 0 && crate::text::is_ws(s.last()) {
        spec_trim_end(s.drop_last())
    } else {
        s
    }
}

/// The plain view of a list of alternatives entries.
pub open spec fn spec_alts_view(alts: Seq<crate::builder::AltLine>) -> Seq<(int, Seq<Seq<u8>>)> {
    Seq::new(alts.len(), |k: int| (alts[k].ply as int, alts[k].moves.deep_view()))
}

/// The whole record text of headers, mainline and alternatives: the
/// header block, a blank line, the numbered mainline, the parenthesized
/// alternatives, with trailing whitespace trimmed.  The position comes
/// from the `FEN` header, or the standard starting position without
/// one.
pub open spec fn spec_record_fen(es: Seq<(Seq<u8>, Seq<u8>)>) -> Seq<u8> {
    match spec_find_fen(es) {
        Some(f) => f,
        None => crate::text::ascii_seq(
            "rnbqkbnr/pppppppp/8/8/8/8/PPPPPPPP/RNBQKBNR w KQkq - 0 1",
        ),
    }
}

pub open spec fn spec_record_text(
    es: Seq<(Seq<u8>, Seq<u8>)>,
    ms: Seq<Seq<u8>>,
    alts: Seq<(int, Seq<Seq<u8>>)>,
) -> Option<Seq<u8>> {
    let fen = spec_record_fen(es);
    let init_white = crate::fen::spec_side_to_move(fen) != Some(crate::fen::Color::Black);
    match spec_mainline_text(fen, ms, 0, init_white) {
        Some(main) => match spec_alts_text(fen, ms, alts, 0) {
            Some(at) => Some(spec_trim_end(spec_header_block(es) + seq![10u8] + main + at)),
            None => None,
        },
        None => None,
    }
}

/// A Black-to-move mainline opens with the `1...` marker.
pub proof fn lemma_first_marker(fen: Seq<u8>, ms: Seq<Seq<u8>>, init_white: bool)
    requires
        ms.len() > 0,
        spec_mainline_text(fen, ms, 0, init_white) is Some,
    ensures
        !init_white ==> spec_mainline_text(fen, ms, 0, init_white)->Some_0.take(5)
            == crate::text::ascii_seq("1... "),
        init_white ==> spec_mainline_text(fen, ms, 0, init_white)->Some_0.take(3)
            == crate::text::ascii_seq("1. "),
{
    reveal_strlit("1... ");
    reveal_strlit("1. ");
    let t = spec_mainline_text(fen, ms, 0, init_white)->Some_0;
    let marker = spec_move_marker(0, init_white);
    if !init_white {
        assert(marker.len() == 5);
        assert(t.take(5) =~= marker);
    } else {
        assert(marker.len() == 3);
        assert(t.take(3) =~= marker);
    }
}

/// Builds the record text of a puzzle sequence under a header map.
pub fn build_pgn_san(
    hdr: &indexmap::IndexMap<Vec<u8>, Vec<u8>>,
    s: &crate::builder::PuzzleSeq,
) -> (r: Option<Vec<u8>>)
    ensures
        r is Some <==> spec_record_text(
            header_entries(*hdr),
            s.moves.deep_view(),
            spec_alts_view(s.alternatives@),
        ) is Some,
        r matches Some(out) ==> Some(out@) == spec_record_text(
            header_entries(*hdr),
            s.moves.deep_view(),
            spec_alts_view(s.alternatives@),
        ),
{
    proof {
        reveal_strlit("rnbqkbnr/pppppppp/8/8/8/8/PPPPPPPP/RNBQKBNR w KQkq - 0 1");
    }
    let ghost es = header_entries(*hdr);
    let ghost ms = s.moves.deep_view();
    let ghost av = spec_alts_view(s.alternatives@);
    let pairs = header_map_pairs(hdr);
    proof {
        assert(spec_pairs_view(pairs@) =~= es);
    }
    let head = format_headers(&pairs);
    // Resolve the starting position from the FEN header.
    let mut fen0: Option<Vec<u8>> = None;
    let mut h: usize = 0;
    proof {
        assert(es.skip(0) =~= es);
    }
    while h < pairs.len()
        invariant
            0 <= h <= pairs@.len(),
            es == spec_pairs_view(pairs@),
            fen0 is None ==> spec_find_fen(es) == spec_find_fen(es.skip(h as int)),
            fen0 matches Some(f) ==> spec_find_fen(es) == Some(f@),
        decreases pairs@.len() - h,
    {
        if fen0.is_none() {
            let k = &pairs[h].0;
            proof {
                assert(es.skip(h as int)[0] == es[h as int]);
                assert(es.skip(h as int).skip(1) =~= es.skip(h as int + 1));
            }
            if k.len() == 3 && (k[0] == 70 || k[0] == 102) && (k[1] == 69 || k[1] == 101) && (k[2]
                == 78 || k[2] == 110) {
                fen0 = Some(copy_bytes(&pairs[h].1));
            }
        }
        h = h + 1;
    }
    let fen_start: Vec<u8> = match fen0 {
        Some(f) => f,
        None => {
            proof {
                assert(es.skip(es.len() as int).len() == 0);
            }
            crate::fen::startpos_fen()
        },
    };
    let ghost gfen = fen_start@;
    proof {
        assert(gfen == spec_record_fen(es));
    }
    let init_white = match crate::fen::side_to_move(&fen_start) {
        Some(crate::fen::Color::Black) => false,
        _ => true,
    };
    let mut out = head;
    out.push(10);
    let ghost prefix = out@;
    proof {
        assert(prefix =~= spec_header_block(es) + seq![10u8]);
    }
    // The mainline, recording the position before each ply for the
    // alternative branches.
    let mut fens: Vec<Vec<u8>> = Vec::new();
    let mut cur = fen_start;
    let mut i: usize = 0;
    proof {
        assert(ms.take(0) =~= Seq::<Seq<u8>>::empty());
        assert(out@.skip(prefix.len() as int) =~= Seq::<u8>::empty());
        match spec_mainline_text(gfen, ms, 0, init_white) {
            Some(rest) => {
                assert(Seq::<u8>::empty() + rest =~= rest);
            },
            None => {},
        }
        assert(out@.take(prefix.len() as int) =~= prefix);
    }
    while i < s.moves.len()
        invariant
            0 <= i <= ms.len(),
            ms == s.moves.deep_view(),
            es == header_entries(*hdr),
            av == spec_alts_view(s.alternatives@),
            gfen == spec_record_fen(es),
            init_white == (crate::fen::spec_side_to_move(gfen) != Some(crate::fen::Color::Black)),
            fens@.len() == i,
            forall|j: int|
                0 <= j < i ==> crate::builder::spec_chain(gfen, ms.take(j)) == Some(
                    (#[trigger] fens@[j])@,
                ),
            crate::builder::spec_chain(gfen, ms.take(i as int)) == Some(cur@),
            match spec_mainline_text(cur@, ms, i as int, init_white) {
                Some(rest) => spec_mainline_text(gfen, ms, 0, init_white) == Some(
                    out@.skip(prefix.len() as int) + rest,
                ),
                None => spec_mainline_text(gfen, ms, 0, init_white) is None,
            },
            out@.len() >= prefix.len(),
            out@.take(prefix.len() as int) == prefix,
            prefix == spec_header_block(es) + seq![10u8],
        decreases ms.len() - i,
    {
        proof {
            assert(s.moves@[i as int]@ == ms[i as int]);
        }
        let ghost out0 = out@;
        // Number marker.
        if i == 0 {
            proof {
                reveal_strlit("1. ");
                reveal_strlit("1... ");
            }
            if init_white {
                crate::text::push_ascii(&mut out, "1. ");
            } else {
                crate::text::push_ascii(&mut out, "1... ");
            }
        } else if init_white && i % 2 == 0 {
            proof {
                reveal_strlit(". ");
            }
            crate::text::push_dec(&mut out, (i / 2 + 1) as u64);
            crate::text::push_ascii(&mut out, ". ");
        } else if !init_white && i % 2 == 1 {
            proof {
                reveal_strlit(". ");
            }
            crate::text::push_dec(&mut out, ((i + 1) / 2 + 1) as u64);
            crate::text::push_ascii(&mut out, ". ");
        }
        proof {
            assert(out@ =~= out0 + spec_move_marker(i as int, init_white));
        }
        let san = match crate::chess::san_for_uci_move(&cur, &s.moves[i]) {
            Some(t) => t,
            None => {
                proof {
                    assert(spec_mainline_text(cur@, ms, i as int, init_white) is None);
                    assert(spec_record_text(es, ms, av) is None);
                }
                return None;
            },
        };
        push_bytes(&mut out, &san);
        out.push(32);
        let next = match crate::chess::apply_uci_move(&cur, &s.moves[i]) {
            Some(f) => f,
            None => {
                proof {
                    assert(spec_mainline_text(cur@, ms, i as int, init_white) is None);
                    assert(spec_record_text(es, ms, av) is None);
                }
                return None;
            },
        };
        fens.push(cur);
        cur = next;
        proof {
            assert(ms.take(i as int + 1) =~= ms.take(i as int).push(ms[i as int]));
            crate::builder::lemma_chain_push(gfen, ms.take(i as int), ms[i as int]);
            assert(out@ =~= out0 + (spec_move_marker(i as int, init_white) + san@ + seq![32u8]));
            assert(out@.skip(prefix.len() as int) =~= out0.skip(prefix.len() as int) + (
            spec_move_marker(i as int, init_white) + san@ + seq![32u8]));
            assert(out@.take(prefix.len() as int) =~= prefix);
            assert forall|j: int|
                0 <= j < i + 1 implies crate::builder::spec_chain(gfen, ms.take(j)) == Some(
                (#[trigger] fens@[j])@,
            ) by {
                if j < i {
                    assert(fens@[j] == fens@.drop_last()[j]);
                }
            }
            match spec_mainline_text(cur@, ms, i as int + 1, init_white) {
                Some(rest) => {
                    assert(spec_mainline_text(gfen, ms, 0, init_white) == Some(
                        out0.skip(prefix.len() as int) + (spec_move_marker(i as int, init_white)
                            + san@ + seq![32u8] + rest),
                    ));
                    assert(out0.skip(prefix.len() as int) + (spec_move_marker(i as int, init_white)
                        + san@ + seq![32u8] + rest) =~= out@.skip(prefix.len() as int) + rest);
                },
                None => {},
            }
        }
        i = i + 1;
    }
    proof {
        assert(spec_mainline_text(cur@, ms, ms.len() as int, init_white) == Some(
            Seq::<u8>::empty(),
        ));
        assert(out@.skip(prefix.len() as int) + Seq::<u8>::empty() =~= out@.skip(
            prefix.len() as int,
        ));
    }
    // The alternatives, each branching at its recorded ply.
    let ghost main_done = out@;
    let ghost main_text = main_done.skip(prefix.len() as int);
    proof {
        assert(spec_mainline_text(gfen, ms, 0, init_white) == Some(main_text));
    }
    let mut k: usize = 0;
    proof {
        assert(out@.skip(main_done.len() as int) =~= Seq::<u8>::empty());
        match spec_alts_text(gfen, ms, av, 0) {
            Some(rest) => {
                assert(Seq::<u8>::empty() + rest =~= rest);
            },
            None => {},
        }
        assert(out@.take(main_done.len() as int) =~= main_done);
    }
    while k < s.alternatives.len()
        invariant
            0 <= k <= av.len(),
            av == spec_alts_view(s.alternatives@),
            es == header_entries(*hdr),
            ms == s.moves.deep_view(),
            gfen == spec_record_fen(es),
            init_white == (crate::fen::spec_side_to_move(gfen) != Some(crate::fen::Color::Black)),
            spec_mainline_text(gfen, ms, 0, init_white) == Some(main_text),
            fens@.len() == ms.len(),
            forall|j: int|
                0 <= j < ms.len() ==> crate::builder::spec_chain(gfen, ms.take(j)) == Some(
                    (#[trigger] fens@[j])@,
                ),
            match spec_alts_text(gfen, ms, av, k as int) {
                Some(rest) => spec_alts_text(gfen, ms, av, 0) == Some(
                    out@.skip(main_done.len() as int) + rest,
                ),
                None => spec_alts_text(gfen, ms, av, 0) is None,
            },
            out@.len() >= main_done.len(),
            out@.take(main_done.len() as int) == main_done,
            main_done == prefix + main_text,
            prefix == spec_header_block(es) + seq![10u8],
        decreases av.len() - k,
    {
        let alt = &s.alternatives[k];
        proof {
            assert(av[k as int] == (alt.ply as int, alt.moves.deep_view()));
        }
        if alt.ply >= s.moves.len() {
            proof {
                assert(spec_alt_entry_text(gfen, ms, av[k as int].0, av[k as int].1) is None);
                assert(spec_alts_text(gfen, ms, av, k as int) is None);
                assert(spec_record_text(es, ms, av) is None);
            }
            return None;
        }
        let branch = &fens[alt.ply];
        let ghost out0 = out@;
        out.push(40);
        let ghost bfen = branch@;
        let ghost ams = alt.moves.deep_view();
        proof {
            assert(crate::builder::spec_chain(gfen, ms.take(alt.ply as int)) == Some(bfen));
            assert(out@.skip(out0.len() as int + 1) =~= Seq::<u8>::empty());
            match spec_sans_spaced(bfen, ams, 0) {
                Some(rest) => {
                    assert(Seq::<u8>::empty() + rest =~= rest);
                },
                None => {},
            }
            assert(out@.take(out0.len() as int + 1) =~= out0.push(40u8));
        }
        let mut j: usize = 0;
        while j < alt.moves.len()
            invariant
                0 <= j <= ams.len(),
                ams == alt.moves.deep_view(),
                bfen == branch@,
                0 <= k < av.len(),
                av == spec_alts_view(s.alternatives@),
                es == header_entries(*hdr),
                ms == s.moves.deep_view(),
                gfen == spec_record_fen(es),
                init_white == (crate::fen::spec_side_to_move(gfen) != Some(
                    crate::fen::Color::Black,
                )),
                av[k as int].0 == alt.ply as int,
                av[k as int].1 == ams,
                0 <= alt.ply < ms.len(),
                crate::builder::spec_chain(gfen, ms.take(alt.ply as int)) == Some(bfen),
                spec_alts_text(gfen, ms, av, k as int) is None ==> spec_alts_text(
                    gfen,
                    ms,
                    av,
                    0,
                ) is None,
                match spec_sans_spaced(bfen, ams, j as int) {
                    Some(rest) => spec_sans_spaced(bfen, ams, 0) == Some(
                        out@.skip(out0.len() as int + 1) + rest,
                    ),
                    None => spec_sans_spaced(bfen, ams, 0) is None,
                },
                out@.len() >= out0.len() + 1,
                out@.take(out0.len() as int + 1) == out0.push(40u8),
            decreases ams.len() - j,
        {
            proof {
                assert(alt.moves@[j as int]@ == ams[j as int]);
            }
            let san = match crate::chess::san_for_uci_move(branch, &alt.moves[j]) {
                Some(t) => t,
                None => {
                    proof {
                        assert(spec_sans_spaced(bfen, ams, j as int) is None);
                        assert(spec_alt_entry_text(gfen, ms, av[k as int].0, av[k as int].1)
                            is None);
                        assert(spec_alts_text(gfen, ms, av, k as int) is None);
                        assert(spec_record_text(es, ms, av) is None);
                    }
                    return None;
                },
            };
            let ghost outb = out@;
            push_bytes(&mut out, &san);
            if j + 1 < alt.moves.len() {
                out.push(32);
            }
            proof {
                match spec_sans_spaced(bfen, ams, j as int + 1) {
                    Some(rest) => {
                        if j as int + 1 < ams.len() {
                            assert(out@ =~= outb + (san@ + seq![32u8]));
                            assert(outb.skip(out0.len() as int + 1) + (san@ + (seq![32u8] + rest))
                                =~= out@.skip(out0.len() as int + 1) + rest);
                        } else {
                            assert(out@ =~= outb + san@);
                            assert(outb.skip(out0.len() as int + 1) + (san@ + Seq::<u8>::empty())
                                =~= out@.skip(out0.len() as int + 1) + rest);
                        }
                    },
                    None => {},
                }
                assert(out@.take(out0.len() as int + 1) =~= out0.push(40u8));
            }
            j = j + 1;
        }
        let ghost after_inner = out@;
        out.push(41);
        out.push(32);
        proof {
            assert(spec_sans_spaced(bfen, ams, ams.len() as int) == Some(Seq::<u8>::empty()));
            assert(after_inner.skip(out0.len() as int + 1) + Seq::<u8>::empty() =~= after_inner.skip(
                out0.len() as int + 1,
            ));
            let inner = spec_sans_spaced(bfen, ams, 0)->Some_0;
            assert(inner == after_inner.skip(out0.len() as int + 1));
            assert(after_inner =~= after_inner.take(out0.len() as int + 1) + after_inner.skip(
                out0.len() as int + 1,
            ));
            assert(out@ =~= after_inner + seq![41u8, 32u8]);
            assert(out@ =~= out0 + (seq![40u8] + inner + seq![41u8, 32u8]));
            assert(spec_alt_entry_text(gfen, ms, av[k as int].0, av[k as int].1) == Some(
                seq![40u8] + inner + seq![41u8, 32u8],
            ));
            match spec_alts_text(gfen, ms, av, k as int + 1) {
                Some(rest) => {
                    assert(out0.skip(main_done.len() as int) + ((seq![40u8] + inner + seq![
                        41u8,
                        32u8,
                    ]) + rest) =~= out@.skip(main_done.len() as int) + rest);
                },
                None => {},
            }
            assert(out@.take(main_done.len() as int) =~= main_done);
        }
        k = k + 1;
    }
    proof {
        assert(spec_alts_text(gfen, ms, av, av.len() as int) == Some(Seq::<u8>::empty()));
        assert(out@.skip(main_done.len() as int) + Seq::<u8>::empty() =~= out@.skip(
            main_done.len() as int,
        ));
    }
    let ghost alts_text = out@.skip(main_done.len() as int);
    // Trim the trailing whitespace.
    let ghost untrimmed = out@;
    proof {
        assert(spec_alts_text(gfen, ms, av, 0) == Some(alts_text));
        assert(untrimmed =~= untrimmed.take(main_done.len() as int) + untrimmed.skip(
            main_done.len() as int,
        ));
        assert(untrimmed =~= spec_header_block(es) + seq![10u8] + main_text + alts_text);
    }
    loop
        invariant
            spec_trim_end(untrimmed) == spec_trim_end(out@),
        ensures
            spec_trim_end(untrimmed) == out@,
        decreases out@.len(),
    {
        if out.len() == 0 {
            proof {
                assert(spec_trim_end(out@) == out@);
            }
            break ;
        }
        let last = out[out.len() - 1];
        if last == 32 || last == 9 || last == 13 || last == 10 {
            proof {
                assert(crate::text::is_ws(out@.last()));
            }
            out.pop();
        } else {
            proof {
                assert(spec_trim_end(out@) == out@);
            }
            break ;
        }
    }
    proof {
        assert(spec_record_text(es, ms, av) == Some(spec_trim_end(untrimmed)));
    }
    Some(out)
}

/// One record as the output sink receives it: the record text, its
/// line end, and the blank separator line.
pub fn export_puzzle(record: &Vec<u8>) -> (r: Vec<u8>)
    ensures
        r@ == record@ + seq![10u8, 10u8],
{
    let mut r = copy_bytes(record);
    r.push(10);
    r.push(10);
    proof {
        assert(r@ =~= record@ + seq![10u8, 10u8]);
    }
    r
}

} // verus!
