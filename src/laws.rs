//! Properties of the encoding as a whole: its length and padding, and that
//! it loses no information, so that decoding inverts it.

use crate::config::MAX_INPUT_SIZE;
use crate::model::{
    aligned_len, encode_groups, encode_tail, encoded_len, encoding, group_char, is_encoding,
    lemma_encoding_ascii, lemma_encoding_parts, lemma_sextet_range, lemma_sym_ascii, sextet, sym,
};
use vstd::prelude::*;
use vstd::utf8::is_ascii_chars;

verus! {

/// The number of padding characters `=` in `t`.
pub open spec fn count_padding(t: Seq<char>) -> nat
    decreases t.len(),
{
    if t.len() == 0 {
        0
    } else {
        (if t.last() == '=' {
            1nat
        } else {
            0nat
        }) + count_padding(t.drop_last())
    }
}

/// The number of padding characters in the encoding of `n` bytes.
pub open spec fn padding_for(n: int) -> nat {
    if n % 3 == 1 {
        2
    } else if n % 3 == 2 {
        1
    } else {
        0
    }
}

proof fn lemma_count_concat(a: Seq<char>, b: Seq<char>)
    ensures
        count_padding(a + b) == count_padding(a) + count_padding(b),
    decreases b.len(),
{
    if b.len() > 0 {
        assert((a + b).drop_last() =~= a + b.drop_last());
        lemma_count_concat(a, b.drop_last());
    } else {
        assert(a + b =~= a);
    }
}

proof fn lemma_count_none(t: Seq<char>)
    requires
        forall|i: int| 0 <= i < t.len() ==> #[trigger] t[i] != '=',
    ensures
        count_padding(t) == 0,
    decreases t.len(),
{
    if t.len() > 0 {
        lemma_count_none(t.drop_last());
    }
}

proof fn lemma_groups_unpadded(s: Seq<u8>)
    ensures
        count_padding(encode_groups(s)) == 0,
{
    assert forall|i: int| 0 <= i < encode_groups(s).len() implies #[trigger] encode_groups(s)[i]
        != '=' by {
        let g = i / 4;
        lemma_sextet_range(s[3 * g] as int, s[3 * g + 1] as int, s[3 * g + 2] as int, i % 4);
        lemma_sym_ascii(sextet(s[3 * g] as int, s[3 * g + 1] as int, s[3 * g + 2] as int, i % 4));
    }
    lemma_count_none(encode_groups(s));
}

/// The length of the encoding, and its number of padding characters: none
/// when the length of `b` is a multiple of 3, two when it leaves 1, one when
/// it leaves 2.
pub proof fn lemma_padding(b: Seq<u8>)
    ensures
        encoding(b).len() == encoded_len(b.len() as int),
        encoding(b).len() % 4 == 0,
        count_padding(encoding(b)) == padding_for(b.len() as int),
{
    let m = aligned_len(b.len() as int);
    let t = b.skip(m);
    lemma_encoding_parts(b);
    assert(b.take(m).len() / 3 * 4 == m / 3 * 4);
    lemma_groups_unpadded(b.take(m));
    lemma_count_concat(encode_groups(b.take(m)), encode_tail(t, true));
    crate::model::lemma_short_encoding(t);
    if t.len() == 1 {
        let x = t[0] as int;
        let c = seq![sym(x / 4), sym((x % 4) * 16)];
        lemma_sym_ascii(x / 4);
        lemma_sym_ascii((x % 4) * 16);
        lemma_count_concat(c, seq!['=', '=']);
        lemma_count_none(c);
        reveal_with_fuel(count_padding, 3);
    } else if t.len() == 2 {
        let x = t[0] as int;
        let y = t[1] as int;
        let c = seq![sym(x / 4), sym((x % 4) * 16 + y / 16), sym((y % 16) * 4)];
        lemma_sym_ascii(x / 4);
        lemma_sym_ascii((x % 4) * 16 + y / 16);
        lemma_sym_ascii((y % 16) * 4);
        lemma_count_concat(c, seq!['=']);
        lemma_count_none(c);
        reveal_with_fuel(count_padding, 2);
    }
}

proof fn lemma_sym_injective(v: int, w: int)
    requires
        0 <= v < 64,
        0 <= w < 64,
        sym(v) == sym(w),
    ensures
        v == w,
{
}

proof fn lemma_group_injective(x: u8, y: u8, z: u8, p: u8, q: u8, r: u8)
    requires
        forall|k: int|
            0 <= k < 4 ==> sym(#[trigger] sextet(x as int, y as int, z as int, k)) == sym(
                sextet(p as int, q as int, r as int, k),
            ),
    ensures
        x == p,
        y == q,
        z == r,
{
    assert forall|k: int| 0 <= k < 4 implies #[trigger] sextet(x as int, y as int, z as int, k)
        == sextet(p as int, q as int, r as int, k) by {
        lemma_sextet_range(x as int, y as int, z as int, k);
        lemma_sextet_range(p as int, q as int, r as int, k);
        lemma_sym_injective(
            sextet(x as int, y as int, z as int, k),
            sextet(p as int, q as int, r as int, k),
        );
    }
    assert(sextet(x as int, y as int, z as int, 0) == sextet(p as int, q as int, r as int, 0));
    assert(sextet(x as int, y as int, z as int, 1) == sextet(p as int, q as int, r as int, 1));
    assert(sextet(x as int, y as int, z as int, 2) == sextet(p as int, q as int, r as int, 2));
    assert(sextet(x as int, y as int, z as int, 3) == sextet(p as int, q as int, r as int, 3));
}

proof fn lemma_groups_injective(a: Seq<u8>, b: Seq<u8>)
    requires
        a.len() == b.len(),
        a.len() % 3 == 0,
        encode_groups(a) == encode_groups(b),
    ensures
        a == b,
{
    assert forall|i: int| 0 <= i < a.len() implies a[i] == b[i] by {
        let g = i / 3;
        assert(0 <= g && 3 * g + 2 < a.len());
        assert forall|k: int| 0 <= k < 4 implies sym(
            #[trigger] sextet(a[3 * g] as int, a[3 * g + 1] as int, a[3 * g + 2] as int, k),
        ) == sym(sextet(b[3 * g] as int, b[3 * g + 1] as int, b[3 * g + 2] as int, k)) by {
            let j = 4 * g + k;
            assert(j / 4 == g && j % 4 == k);
            assert(0 <= j < encode_groups(a).len());
            assert(encode_groups(a)[j] == group_char(a, j));
            assert(encode_groups(b)[j] == group_char(b, j));
        }
        lemma_group_injective(a[3 * g], a[3 * g + 1], a[3 * g + 2], b[3 * g], b[3 * g + 1], b[3 * g + 2]);
        assert(i == 3 * g || i == 3 * g + 1 || i == 3 * g + 2);
    }
    assert(a =~= b);
}

/// Distinct byte sequences have distinct encodings.
pub proof fn lemma_encoding_injective(a: Seq<u8>, b: Seq<u8>)
    requires
        encoding(a) == encoding(b),
    ensures
        a == b,
{
    let ma = aligned_len(a.len() as int);
    let mb = aligned_len(b.len() as int);
    let ta = a.skip(ma);
    let tb = b.skip(mb);
    lemma_padding(a);
    lemma_padding(b);
    lemma_encoding_parts(a);
    lemma_encoding_parts(b);
    crate::model::lemma_short_encoding(ta);
    crate::model::lemma_short_encoding(tb);
    let ga = encode_groups(a.take(ma));
    let gb = encode_groups(b.take(mb));
    let e = encoding(a);
    assert(ga.len() == ma / 3 * 4);
    assert(gb.len() == mb / 3 * 4);
    if ta.len() != tb.len() {
        if ta.len() == 0 || tb.len() == 0 {
            assert(false);
        } else {
            assert(ga.len() == gb.len());
            let p = e.len() - 2;
            if ta.len() == 1 {
                assert(e[p] == '=');
                let y = tb[1] as int;
                let x = tb[0] as int;
                lemma_sextet_range(x, y, 0, 1);
                lemma_sym_ascii((x % 4) * 16 + y / 16);
                assert(e[p] == (ga + encode_tail(tb, true))[p]);
                assert(false);
            } else {
                assert(e[p] == '=');
                let y = ta[1] as int;
                let x = ta[0] as int;
                lemma_sextet_range(x, y, 0, 1);
                lemma_sym_ascii((x % 4) * 16 + y / 16);
                assert(e[p] == (ga + encode_tail(ta, true))[p]);
                assert(false);
            }
        }
    }
    assert(a.len() == b.len());
    assert(ga == e.take(ga.len() as int));
    assert(gb == e.take(gb.len() as int));
    lemma_groups_injective(a.take(ma), b.take(mb));
    let tt = encode_tail(ta, true);
    assert(tt == e.skip(ga.len() as int));
    assert(encode_tail(tb, true) == e.skip(gb.len() as int));
    if ta.len() >= 1 {
        let x = ta[0] as int;
        let p = tb[0] as int;
        lemma_sextet_range(x, 0, 0, 0);
        lemma_sextet_range(p, 0, 0, 0);
        assert(tt[0] == sym(x / 4));
        assert(encode_tail(tb, true)[0] == sym(p / 4));
        lemma_sym_injective(x / 4, p / 4);
        if ta.len() == 1 {
            assert(tt[1] == sym((x % 4) * 16));
            assert(encode_tail(tb, true)[1] == sym((p % 4) * 16));
            lemma_sym_injective((x % 4) * 16, (p % 4) * 16);
        } else {
            let y = ta[1] as int;
            let q = tb[1] as int;
            lemma_sextet_range(x, y, 0, 1);
            lemma_sextet_range(p, q, 0, 1);
            lemma_sextet_range(x, y, 0, 2);
            lemma_sextet_range(p, q, 0, 2);
            assert(tt[1] == sym((x % 4) * 16 + y / 16));
            assert(tt[2] == sym((y % 16) * 4));
            lemma_sym_injective((x % 4) * 16 + y / 16, (p % 4) * 16 + q / 16);
            lemma_sym_injective((y % 16) * 4, (q % 16) * 4);
        }
    }
    assert(ta =~= tb);
    assert(a =~= a.take(ma) + ta);
    assert(b =~= b.take(mb) + tb);
}

/// Round trip: the encoding of `b` is ASCII, has a length that is a
/// multiple of four and, when it fits the decoder's limit, is accepted by
/// it; and `b` is the only byte sequence that it is the encoding of, so
/// decoding it gives back `b`.
pub proof fn lemma_round_trip(b: Seq<u8>, v: Seq<u8>)
    requires
        encoding(v) == encoding(b),
    ensures
        v == b,
        is_encoding(encoding(b)),
        is_ascii_chars(encoding(b)),
        encoding(b).len() == encoded_len(b.len() as int),
        encoding(b).len() % 4 == 0,
        encoded_len(b.len() as int) <= MAX_INPUT_SIZE ==> encoding(b).len() <= MAX_INPUT_SIZE,
{
    lemma_encoding_injective(v, b);
    lemma_padding(b);
    lemma_encoding_ascii(b);
}

} // verus!
