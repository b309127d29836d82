//! The text of a certificate fingerprint as an SDP `a=fingerprint:` value:
//! `sha-256` and the digest's bytes in upper-case hex, joined by colons.
use vstd::prelude::*;

verus! {

/// The upper-case hex digit of `n < 16`.
pub open spec fn hex_digit(n: int) -> char {
    if n < 10 {
        if n == 0 { '0' }
        else if n == 1 { '1' }
        else if n == 2 { '2' }
        else if n == 3 { '3' }
        else if n == 4 { '4' }
        else if n == 5 { '5' }
        else if n == 6 { '6' }
        else if n == 7 { '7' }
        else if n == 8 { '8' }
        else { '9' }
    } else {
        if n == 10 { 'A' }
        else if n == 11 { 'B' }
        else if n == 12 { 'C' }
        else if n == 13 { 'D' }
        else if n == 14 { 'E' }
        else { 'F' }
    }
}

/// The two hex digits of a byte.
pub open spec fn byte_hex(b: u8) -> Seq<char> {
    seq![hex_digit(b as int / 16), hex_digit(b as int % 16)]
}

/// The bytes of `d` in hex, joined by colons.
pub open spec fn hex_pairs(d: Seq<u8>) -> Seq<char>
    decreases d.len(),
{
    if d.len() == 0 {
        Seq::empty()
    } else if d.len() == 1 {
        byte_hex(d[0])
    } else {
        hex_pairs(d.drop_last()) + seq![':'] + byte_hex(d.last())
    }
}

/// The fingerprint value of a SHA-256 digest.
pub open spec fn fingerprint_value(d: Seq<u8>) -> Seq<char> {
    "sha-256 "@ + hex_pairs(d)
}

fn hex_str(n: u8) -> (r: &'static str)
    requires
        n < 16,
    ensures
        r@ == seq![hex_digit(n as int)],
{
    proof {
        reveal_strlit("0");
        reveal_strlit("1");
        reveal_strlit("2");
        reveal_strlit("3");
        reveal_strlit("4");
        reveal_strlit("5");
        reveal_strlit("6");
        reveal_strlit("7");
        reveal_strlit("8");
        reveal_strlit("9");
        reveal_strlit("A");
        reveal_strlit("B");
        reveal_strlit("C");
        reveal_strlit("D");
        reveal_strlit("E");
        reveal_strlit("F");
    }
    if n == 0 { "0" }
    else if n == 1 { "1" }
    else if n == 2 { "2" }
    else if n == 3 { "3" }
    else if n == 4 { "4" }
    else if n == 5 { "5" }
    else if n == 6 { "6" }
    else if n == 7 { "7" }
    else if n == 8 { "8" }
    else if n == 9 { "9" }
    else if n == 10 { "A" }
    else if n == 11 { "B" }
    else if n == 12 { "C" }
    else if n == 13 { "D" }
    else if n == 14 { "E" }
    else { "F" }
}

/// Writes the fingerprint value of the SHA-256 `digest` of a certificate.
pub fn fingerprint_text(digest: &[u8]) -> (r: String)
    ensures
        r@ == fingerprint_value(digest@),
{
    let mut out = String::new();
    let mut i: usize = 0;
    while i < digest.len()
        invariant
            i <= digest@.len(),
            out@ == hex_pairs(digest@.take(i as int)),
        decreases digest.len() - i,
    {
        let b = digest[i];
        let ghost before = out@;
        proof {
            reveal_strlit(":");
        }
        if i > 0 {
            out.append(":");
        }
        out.append(hex_str(b / 16));
        out.append(hex_str(b % 16));
        assert(digest@.take(i + 1).drop_last() =~= digest@.take(i as int));
        assert(digest@.take(i + 1).last() == b);
        if i == 0 {
            assert(out@ =~= hex_pairs(digest@.take(1)));
        } else {
            assert(out@ =~= hex_pairs(digest@.take(i + 1)));
        }
        i = i + 1;
    }
    assert(digest@.take(digest@.len() as int) =~= digest@);
    let mut r = "sha-256 ".to_owned();
    r.append(out.as_str());
    r
}

/// The value of an upper-case hex digit: `0` to `9` count 0 to 9, `A` to `F`
/// count 10 to 15; any other character counts -1.
pub open spec fn hex_value(c: char) -> int {
    if '0' <= c && c <= '9' {
        c as int - '0' as int
    } else if 'A' <= c && c <= 'F' {
        c as int - 'A' as int + 10
    } else {
        -1
    }
}

/// An upper-case hex digit: `0` to `9` or `A` to `F`.
pub open spec fn is_upper_hex(c: char) -> bool {
    ('0' <= c && c <= '9') || ('A' <= c && c <= 'F')
}

/// At `p` in `t` stand two upper-case hex digits whose value is `b`.
pub open spec fn pair_reads_as(t: Seq<char>, p: int, b: u8) -> bool {
    &&& 0 <= p && p + 2 <= t.len()
    &&& is_upper_hex(t[p])
    &&& is_upper_hex(t[p + 1])
    &&& hex_value(t[p]) * 16 + hex_value(t[p + 1]) == b
}

proof fn lemma_hex_digit_value(n: int)
    requires
        0 <= n < 16,
    ensures
        is_upper_hex(hex_digit(n)),
        hex_value(hex_digit(n)) == n,
{
}

/// Where the digits and colons of `hex_pairs(d)` stand.
proof fn lemma_hex_pairs_layout(d: Seq<u8>)
    requires
        d.len() > 0,
    ensures
        hex_pairs(d).len() == 3 * d.len() - 1,
        forall|i: int|
            0 <= i < d.len() ==> {
                &&& hex_pairs(d)[3 * i] == hex_digit(#[trigger] d[i] as int / 16)
                &&& hex_pairs(d)[3 * i + 1] == hex_digit(d[i] as int % 16)
                &&& (i + 1 < d.len() ==> hex_pairs(d)[3 * i + 2] == ':')
            },
    decreases d.len(),
{
    if d.len() > 1 {
        let d0 = d.drop_last();
        lemma_hex_pairs_layout(d0);
        let h0 = hex_pairs(d0);
        let h = hex_pairs(d);
        let bh = byte_hex(d.last());
        assert(h == h0 + seq![':'] + bh);
        let n = d.len() as int;
        assert forall|i: int| 0 <= i < d.len() implies {
            &&& h[3 * i] == hex_digit(#[trigger] d[i] as int / 16)
            &&& h[3 * i + 1] == hex_digit(d[i] as int % 16)
            &&& (i + 1 < d.len() ==> h[3 * i + 2] == ':')
        } by {
            if i < n - 1 {
                assert(d0[i] == d[i]);
                assert(h[3 * i] == h0[3 * i]);
                assert(h[3 * i + 1] == h0[3 * i + 1]);
                if i + 1 < n - 1 {
                    assert(h[3 * i + 2] == h0[3 * i + 2]);
                } else {
                    assert(3 * i + 2 == h0.len());
                }
            } else {
                assert(d[i] == d.last());
                assert(3 * i == h0.len() + 1);
                assert(h[3 * i] == bh[0]);
                assert(h[3 * i + 1] == bh[1]);
            }
        }
    }
}

/// The fingerprint text reads back as the digest: after `sha-256 `, byte `i`
/// of the digest stands as two upper-case hex digits at `8 + 3i`, whose value
/// (see `hex_value`) is the byte, and a colon follows each pair but the last.
pub proof fn law_fingerprint_reads_back(d: Seq<u8>)
    ensures
        fingerprint_value(d).subrange(0, 8) == "sha-256 "@,
        fingerprint_value(d).len() == if d.len() == 0 { 8 } else { 8 + 3 * d.len() - 1 },
        forall|i: int|
            0 <= i < d.len() ==> #[trigger] pair_reads_as(fingerprint_value(d), 8 + 3 * i, d[i]),
        forall|i: int|
            0 <= i < d.len() - 1 ==> #[trigger] pair_reads_as(fingerprint_value(d), 8 + 3 * i, d[i])
                && fingerprint_value(d)[8 + 3 * i + 2] == ':',
{
    reveal_strlit("sha-256 ");
    let t = fingerprint_value(d);
    let p = "sha-256 "@;
    assert(p.len() == 8);
    assert(t.subrange(0, 8) =~= p);
    if d.len() == 0 {
        assert(hex_pairs(d) =~= Seq::<char>::empty());
    } else {
        lemma_hex_pairs_layout(d);
        let h = hex_pairs(d);
        assert forall|i: int| 0 <= i < d.len() implies #[trigger] pair_reads_as(t, 8 + 3 * i, d[i])
            && (i + 1 < d.len() ==> t[8 + 3 * i + 2] == ':') by {
            let b = d[i] as int;
            assert(t[8 + 3 * i] == h[3 * i]);
            assert(t[8 + 3 * i + 1] == h[3 * i + 1]);
            if i + 1 < d.len() {
                assert(t[8 + 3 * i + 2] == h[3 * i + 2]);
            }
            assert(0 <= b < 256);
            assert(0 <= b / 16 < 16);
            assert(0 <= b % 16 < 16);
            lemma_hex_digit_value(b / 16);
            lemma_hex_digit_value(b % 16);
            assert(b / 16 * 16 + b % 16 == b);
        }
    }
}

} // verus!
