//! The mathematical model of standard Base64: what the encoding of a byte
//! sequence is, stated group by group.

use vstd::arithmetic::div_mod::*;
use vstd::prelude::*;
use vstd::utf8::is_ascii_chars;

verus! {

/// The character of the standard alphabet for the 6-bit value `v`.
pub open spec fn sym(v: int) -> char {
    if v < 26 {
        (v + 65) as char
    } else if v < 52 {
        (v + 71) as char
    } else if v < 62 {
        (v - 4) as char
    } else if v == 62 {
        '+'
    } else {
        '/'
    }
}

/// The `k`-th 6-bit value (0..4) of the group of bytes `x`, `y`, `z`.
pub open spec fn sextet(x: int, y: int, z: int, k: int) -> int {
    if k == 0 {
        x / 4
    } else if k == 1 {
        (x % 4) * 16 + y / 16
    } else if k == 2 {
        (y % 16) * 4 + z / 64
    } else {
        z % 64
    }
}

/// The character at position `i` of the encoding of the full groups of `s`.
pub open spec fn group_char(s: Seq<u8>, i: int) -> char {
    let g = i / 4;
    sym(sextet(s[3 * g] as int, s[3 * g + 1] as int, s[3 * g + 2] as int, i % 4))
}

/// The encoding of the complete 3-byte groups of `s`: four characters per
/// group, no padding; bytes after the last full group are ignored.
pub open spec fn encode_groups(s: Seq<u8>) -> Seq<char> {
    Seq::new((s.len() / 3 * 4) as nat, |i: int| group_char(s, i))
}

/// The encoding of a tail of 0 to 2 bytes, padded with `=` to four
/// characters when `pad` holds.
pub open spec fn encode_tail(t: Seq<u8>, pad: bool) -> Seq<char> {
    if t.len() == 1 {
        let x = t[0] as int;
        let c = seq![sym(x / 4), sym((x % 4) * 16)];
        if pad {
            c + seq!['=', '=']
        } else {
            c
        }
    } else if t.len() == 2 {
        let x = t[0] as int;
        let y = t[1] as int;
        let c = seq![sym(x / 4), sym((x % 4) * 16 + y / 16), sym((y % 16) * 4)];
        if pad {
            c + seq!['=']
        } else {
            c
        }
    } else {
        seq![]
    }
}

/// The length of the longest prefix of `n` bytes made of whole groups.
pub open spec fn aligned_len(n: int) -> int {
    n - n % 3
}

/// Standard Base64 of `s`, with `=` padding.
pub open spec fn encoding(s: Seq<u8>) -> Seq<char> {
    let m = aligned_len(s.len() as int);
    encode_groups(s.take(m)) + encode_tail(s.skip(m), true)
}

/// Standard Base64 of `s` without padding.
pub open spec fn encoding_unpadded(s: Seq<u8>) -> Seq<char> {
    let m = aligned_len(s.len() as int);
    encode_groups(s.take(m)) + encode_tail(s.skip(m), false)
}

/// Whether `t` is the padded encoding of some bytes.
pub open spec fn is_encoding(t: Seq<char>) -> bool {
    exists|v: Seq<u8>| #[trigger] encoding(v) == t
}

/// The length of the padded encoding of `n` bytes.
pub open spec fn encoded_len(n: int) -> int {
    (n + 2) / 3 * 4
}

proof fn lemma_group_index(i: int, a: int)
    requires
        i >= 0,
        a >= 0,
    ensures
        (i + 4 * a) / 4 == i / 4 + a,
        (i + 4 * a) % 4 == i % 4,
        i == 4 * (i / 4) + i % 4,
        0 <= i % 4 < 4,
{
    lemma_fundamental_div_mod(i, 4);
    lemma_mod_pos_bound(i, 4);
    lemma_hoist_over_denominator(i, a, 4);
    assert(i + a * 4 == i + 4 * a);
    lemma_mod_multiples_vanish(a, i, 4);
    assert(4 * a + i == i + 4 * a);
}

/// Encoding whole groups commutes with concatenation at a group boundary.
pub proof fn lemma_groups_concat(a: Seq<u8>, b: Seq<u8>)
    requires
        a.len() % 3 == 0,
    ensures
        encode_groups(a + b) == encode_groups(a) + encode_groups(b),
{
    let ab = a + b;
    let na = a.len() / 3;
    assert(ab.len() / 3 == na + b.len() / 3) by {
        lemma_fundamental_div_mod(a.len() as int, 3);
        lemma_hoist_over_denominator(b.len() as int, na as int, 3);
    }
    let lhs = encode_groups(ab);
    let rhs = encode_groups(a) + encode_groups(b);
    assert forall|i: int| 0 <= i < lhs.len() implies lhs[i] == rhs[i] by {
        if i < 4 * na {
            lemma_group_index(i, 0);
            assert(3 * (i / 4) + 2 < a.len()) by (nonlinear_arith)
                requires
                    i / 4 < na,
                    a.len() == 3 * na,
            ;
        } else {
            let j = i - 4 * na;
            lemma_group_index(j, na as int);
            assert(3 * (i / 4) == 3 * (j / 4) + a.len()) by (nonlinear_arith)
                requires
                    i / 4 == j / 4 + na,
                    a.len() == 3 * na,
            ;
            assert(j < b.len() / 3 * 4);

            assert(3 * (j / 4) + 2 < b.len()) by (nonlinear_arith)
                requires
                    j / 4 < b.len() / 3,
            ;
        }
    }
    assert(lhs =~= rhs);
}

/// On whole groups the padded and unpadded encodings are the group encoding.
pub proof fn lemma_aligned_encoding(s: Seq<u8>)
    requires
        s.len() % 3 == 0,
    ensures
        encoding(s) == encode_groups(s),
        encoding_unpadded(s) == encode_groups(s),
{
    assert(s.take(s.len() as int) =~= s);
    assert(encode_tail(s.skip(s.len() as int), true) =~= Seq::<char>::empty());
    assert(encode_tail(s.skip(s.len() as int), false) =~= Seq::<char>::empty());
    assert(encoding(s) =~= encode_groups(s));
    assert(encoding_unpadded(s) =~= encode_groups(s));
}

/// Fewer than three bytes encode as their tail alone.
pub proof fn lemma_short_encoding(t: Seq<u8>)
    requires
        t.len() < 3,
    ensures
        encoding(t) == encode_tail(t, true),
{
    assert(t.skip(0) =~= t);
    assert(encode_groups(t.take(0)) =~= Seq::<char>::empty());
    assert(encoding(t) =~= encode_tail(t, true));
}

/// The encoding of `s` is the group encoding of its aligned part followed by
/// the padded encoding of its tail.
pub proof fn lemma_encoding_parts(s: Seq<u8>)
    ensures
        encoding(s) == encode_groups(s.take(aligned_len(s.len() as int))) + encoding(
            s.skip(aligned_len(s.len() as int)),
        ),
        s.skip(aligned_len(s.len() as int)).len() < 3,
        aligned_len(s.len() as int) % 3 == 0,
        0 <= aligned_len(s.len() as int) <= s.len(),
{
    lemma_short_encoding(s.skip(aligned_len(s.len() as int)));
}

/// Cutting off a prefix of whole groups cuts off its group encoding.
pub proof fn lemma_encoding_split(s: Seq<u8>, m: int)
    requires
        0 <= m <= s.len(),
        m % 3 == 0,
    ensures
        encoding(s) == encode_groups(s.take(m)) + encoding(s.skip(m)),
{
    let n = s.len() as int;
    let a = aligned_len(n);
    let r = s.skip(m);
    assert(aligned_len(r.len() as int) == a - m);
    assert(s.take(a) =~= s.take(m) + r.take(a - m));
    lemma_groups_concat(s.take(m), r.take(a - m));
    assert(r.skip(a - m) =~= s.skip(a));
}

/// The group encoding of the groups `a..b` of `s` is the matching part of the
/// group encoding of `s`.
pub proof fn lemma_groups_subrange(s: Seq<u8>, a: int, b: int)
    requires
        0 <= a <= b,
        3 * b <= s.len(),
    ensures
        encode_groups(s.subrange(3 * a, 3 * b)) == encode_groups(s).subrange(4 * a, 4 * b),
        encode_groups(s).len() >= 4 * b,
{
    let p = s.take(3 * a);
    let c = s.subrange(3 * a, 3 * b);
    let q = s.skip(3 * b);
    assert(s =~= (p + c) + q);
    lemma_groups_concat(p, c);
    lemma_groups_concat(p + c, q);
    assert((3 * a) / 3 == a);
    assert((3 * b - 3 * a) / 3 == b - a);
    assert(encode_groups(s) == encode_groups(p) + encode_groups(c) + encode_groups(q));
    assert(encode_groups(s).subrange(4 * a, 4 * b) =~= encode_groups(c));
}

/// The bytes of an ASCII character sequence.
pub open spec fn ascii_bytes(t: Seq<char>) -> Seq<u8> {
    t.map_values(|c: char| c as u8)
}

/// Every character of the alphabet is ASCII, and its byte converts back.
pub proof fn lemma_sym_ascii(v: int)
    requires
        0 <= v < 64,
    ensures
        '\0' <= sym(v) <= '\u{7f}',
        ((sym(v) as u8) as char) == sym(v),
        sym(v) != '=',
{
}

/// Each 6-bit value of a group of bytes is below 64.
pub proof fn lemma_sextet_range(x: int, y: int, z: int, k: int)
    requires
        0 <= x < 256,
        0 <= y < 256,
        0 <= z < 256,
    ensures
        0 <= sextet(x, y, z, k) < 64,
{
}

/// Encodings consist of ASCII characters.
pub proof fn lemma_encoding_ascii(s: Seq<u8>)
    ensures
        is_ascii_chars(encode_groups(s)),
        is_ascii_chars(encoding(s)),
        is_ascii_chars(encoding_unpadded(s)),
{
    assert forall|i: int| 0 <= i < encode_groups(s).len() implies '\0' <= #[trigger] encode_groups(
        s,
    )[i] <= '\u{7f}' by {
        let g = i / 4;
        lemma_sextet_range(s[3 * g] as int, s[3 * g + 1] as int, s[3 * g + 2] as int, i % 4);
        lemma_sym_ascii(sextet(s[3 * g] as int, s[3 * g + 1] as int, s[3 * g + 2] as int, i % 4));
    }
    let m = aligned_len(s.len() as int);
    let t = s.skip(m);
    if t.len() >= 1 {
        let x = t[0] as int;
        lemma_sym_ascii(x / 4);
        if t.len() == 1 {
            lemma_sym_ascii((x % 4) * 16);
        } else if t.len() == 2 {
            let y = t[1] as int;
            lemma_sym_ascii((x % 4) * 16 + y / 16);
            lemma_sym_ascii((y % 16) * 4);
        }
    }
    lemma_ascii_concat(encode_groups(s.take(m)), encode_tail(t, true));
    lemma_ascii_concat(encode_groups(s.take(m)), encode_tail(t, false));
}

proof fn lemma_ascii_concat(a: Seq<char>, b: Seq<char>)
    requires
        is_ascii_chars(a),
        forall|i: int| 0 <= i < b.len() ==> '\0' <= #[trigger] b[i] <= '\u{7f}',
    ensures
        is_ascii_chars(a + b),
{
    assert forall|i: int| 0 <= i < (a + b).len() implies '\0' <= #[trigger] (a + b)[i] <= '\u{7f}' by {
        if i >= a.len() {
            assert((a + b)[i] == b[i - a.len()]);
        }
    }
}

/// ASCII characters survive the round trip through their bytes.
pub proof fn lemma_ascii_bytes(t: Seq<char>)
    requires
        is_ascii_chars(t),
    ensures
        ascii_bytes(t).len() == t.len(),
        forall|i: int| 0 <= i < t.len() ==> (#[trigger] ascii_bytes(t)[i]) < 128,
        ascii_bytes(t).map_values(|b: u8| b as char) == t,
{
    assert(ascii_bytes(t).map_values(|b: u8| b as char) =~= t);
}

} // verus!
