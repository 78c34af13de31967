//! Standard base64 encoding (RFC 4648 §4), stated so that decoding can be
//! shown to undo it.

use vstd::prelude::*;
use crate::checks::support::{sextet, group_value, group_bytes, groups_bytes, tail_bytes, base64_bytes, base64_valid, base64_decoded, padding, is_base64_char};
use vstd::utf8::{encode_utf8, encode_utf8_valid_utf8, encode_utf8_decode_utf8};

verus! {

/// The alphabet character of a sextet value (RFC 4648 §4, table 1).
pub open spec fn alphabet(v: int) -> char {
    if v < 26 {
        (65 + v) as char
    } else if v < 52 {
        (97 + v - 26) as char
    } else if v < 62 {
        (48 + v - 52) as char
    } else if v == 62 {
        '+'
    } else {
        '/'
    }
}

/// Byte `i` of `b`, reading past its end as zero (the bits RFC 4648 pads with).
pub open spec fn byte_at(b: Seq<u8>, i: int) -> int {
    if 0 <= i < b.len() { b[i] as int } else { 0 }
}

/// The 24 bits of the `j`th three-byte group of `b`.
pub open spec fn triple(b: Seq<u8>, j: int) -> int {
    byte_at(b, 3 * j) * 65536 + byte_at(b, 3 * j + 1) * 256 + byte_at(b, 3 * j + 2)
}

/// The sextet that character `i` of the encoding of `b` carries.
pub open spec fn encoded_sextet(b: Seq<u8>, i: int) -> int {
    let v = triple(b, i / 4);
    if i % 4 == 0 {
        ((v / 64) / 64) / 64
    } else if i % 4 == 1 {
        ((v / 64) / 64) % 64
    } else if i % 4 == 2 {
        (v / 64) % 64
    } else {
        v % 64
    }
}

/// How many characters of the encoding of `n` bytes are not padding.
pub open spec fn content_len(n: int) -> int {
    4 * (n / 3) + if n % 3 == 0 { 0int } else if n % 3 == 1 { 2int } else { 3int }
}

/// The standard base64 encoding of `b` (RFC 4648 §4), padded with `=` to a
/// multiple of four.
pub open spec fn base64_encode(b: Seq<u8>) -> Seq<char> {
    Seq::new((4 * ((b.len() + 2) / 3)) as nat, |i: int|
        if i < content_len(b.len() as int) { alphabet(encoded_sextet(b, i)) } else { '=' })
}

proof fn lemma_alphabet(v: int)
    requires
        0 <= v < 64,
    ensures
        sextet(alphabet(v)) == v,
        is_base64_char(alphabet(v)),
        alphabet(v) != '=',
{
    assert('A' as int == 65 && 'Z' as int == 90 && 'a' as int == 97 && 'z' as int == 122);
    assert('0' as int == 48 && '9' as int == 57 && '=' as int == 61);
}

proof fn lemma_sextets(v: int)
    requires
        0 <= v < 16777216,
    ensures
        0 <= ((v / 64) / 64) / 64 < 64,
        group_value(((v / 64) / 64) / 64, ((v / 64) / 64) % 64, (v / 64) % 64, v % 64) == v,
{
}

/// The characters `s` holds are the alphabet characters of the encoding of `b`.
pub open spec fn spells(s: Seq<char>, b: Seq<u8>) -> bool {
    forall|i: int| 0 <= i < s.len() ==> #[trigger] s[i] == alphabet(encoded_sextet(b, i))
}

proof fn lemma_sextet_of(b: Seq<u8>, i: int)
    requires
        0 <= i,
    ensures
        0 <= encoded_sextet(b, i) < 64,
        sextet(alphabet(encoded_sextet(b, i))) == encoded_sextet(b, i),
        is_base64_char(alphabet(encoded_sextet(b, i))),
        alphabet(encoded_sextet(b, i)) != '=',
{
    let v = triple(b, i / 4);
    assert(0 <= v < 16777216);
    lemma_sextets(v);
    lemma_alphabet(encoded_sextet(b, i));
}

/// The sextets of a group spell its 24 bits back.
proof fn lemma_group_value(b: Seq<u8>, j: int)
    requires
        0 <= j,
    ensures
        group_value(encoded_sextet(b, 4 * j), encoded_sextet(b, 4 * j + 1), encoded_sextet(b, 4 * j + 2),
            encoded_sextet(b, 4 * j + 3)) == triple(b, j),
{
    let v = triple(b, j);
    assert((4 * j) / 4 == j && (4 * j + 1) / 4 == j && (4 * j + 2) / 4 == j && (4 * j + 3) / 4 == j);
    assert((4 * j) % 4 == 0 && (4 * j + 1) % 4 == 1 && (4 * j + 2) % 4 == 2 && (4 * j + 3) % 4 == 3);
    assert(0 <= v < 16777216);
    lemma_sextets(v);
}

/// The three bytes of a group read back from its 24 bits.
proof fn lemma_triple_bytes(b0: int, b1: int, b2: int)
    requires
        0 <= b0 < 256,
        0 <= b1 < 256,
        0 <= b2 < 256,
    ensures
        (b0 * 65536 + b1 * 256 + b2) / 65536 == b0,
        ((b0 * 65536 + b1 * 256 + b2) / 256) % 256 == b1,
        (b0 * 65536 + b1 * 256 + b2) % 256 == b2,
{
}

proof fn lemma_full_group(s: Seq<char>, b: Seq<u8>, j: int)
    requires
        spells(s, b),
        0 <= j,
        4 * j + 3 < s.len(),
        3 * j + 2 < b.len(),
    ensures
        group_bytes(s, j) == seq![b[3 * j], b[3 * j + 1], b[3 * j + 2]],
{
    let v = triple(b, j);
    assert(s[4 * j] == alphabet(encoded_sextet(b, 4 * j)));
    assert(s[4 * j + 1] == alphabet(encoded_sextet(b, 4 * j + 1)));
    assert(s[4 * j + 2] == alphabet(encoded_sextet(b, 4 * j + 2)));
    assert(s[4 * j + 3] == alphabet(encoded_sextet(b, 4 * j + 3)));
    lemma_sextet_of(b, 4 * j);
    lemma_sextet_of(b, 4 * j + 1);
    lemma_sextet_of(b, 4 * j + 2);
    lemma_sextet_of(b, 4 * j + 3);
    lemma_group_value(b, j);
    lemma_triple_bytes(b[3 * j] as int, b[3 * j + 1] as int, b[3 * j + 2] as int);
    assert(group_bytes(s, j) =~= seq![b[3 * j], b[3 * j + 1], b[3 * j + 2]]);
}


proof fn lemma_groups(s: Seq<char>, b: Seq<u8>, k: int)
    requires
        spells(s, b),
        0 <= k,
        4 * k <= s.len(),
        3 * k <= b.len(),
    ensures
        groups_bytes(s, k) == b.take(3 * k),
    decreases k,
{
    if k > 0 {
        lemma_groups(s, b, k - 1);
        lemma_full_group(s, b, k - 1);
        assert(b.take(3 * k) =~= b.take(3 * (k - 1)) + seq![b[3 * (k - 1)], b[3 * (k - 1) + 1], b[3 * (k - 1) + 2]]);
    } else {
        assert(b.take(0) =~= Seq::<u8>::empty());
    }
}

proof fn lemma_tail(s: Seq<char>, b: Seq<u8>)
    requires
        spells(s, b),
        s.len() == content_len(b.len() as int),
    ensures
        tail_bytes(s, (b.len() / 3) as int, (s.len() % 4) as int) == b.skip(3 * ((b.len() / 3) as int)),
{
    let n = b.len() as int;
    let k = n / 3;
    let r = n % 3;
    assert(s.len() % 4 == if r == 0 { 0int } else if r == 1 { 2int } else { 3int });
    if r == 0 {
        assert(b.skip(3 * k) =~= Seq::<u8>::empty());
    } else {
        let v = triple(b, k);
        lemma_group_value(b, k);
        assert((4 * k) / 4 == k && (4 * k + 1) / 4 == k && (4 * k + 2) / 4 == k && (4 * k + 3) / 4 == k);
        assert((4 * k) % 4 == 0 && (4 * k + 1) % 4 == 1 && (4 * k + 2) % 4 == 2 && (4 * k + 3) % 4 == 3);
        assert(s[4 * k] == alphabet(encoded_sextet(b, 4 * k)));
        assert(s[4 * k + 1] == alphabet(encoded_sextet(b, 4 * k + 1)));
        lemma_sextet_of(b, 4 * k);
        lemma_sextet_of(b, 4 * k + 1);
        if r == 1 {
            assert(byte_at(b, 3 * k + 1) == 0 && byte_at(b, 3 * k + 2) == 0);
            lemma_triple_bytes(b[3 * k] as int, 0, 0);
            assert(encoded_sextet(b, 4 * k + 2) == 0 && encoded_sextet(b, 4 * k + 3) == 0);
            assert(b.skip(3 * k) =~= seq![b[3 * k]]);
        } else {
            assert(byte_at(b, 3 * k + 2) == 0);
            assert(s[4 * k + 2] == alphabet(encoded_sextet(b, 4 * k + 2)));
            lemma_sextet_of(b, 4 * k + 2);
            lemma_triple_bytes(b[3 * k] as int, b[3 * k + 1] as int, 0);
            assert(encoded_sextet(b, 4 * k + 3) == 0);
            assert(b.skip(3 * k) =~= seq![b[3 * k], b[3 * k + 1]]);
        }
    }
}

/// Encoding any bytes gives valid base64, whose bytes, padding set aside, are
/// those bytes again.
pub proof fn lemma_base64_bytes_round_trip(b: Seq<u8>)
    ensures
        base64_valid(base64_encode(b)),
        base64_bytes(base64_encode(b).take(base64_encode(b).len() - padding(base64_encode(b)))) == b,
{
    let e = base64_encode(b);
    let n = b.len() as int;
    let cl = content_len(n);
    let len = e.len() as int;
    assert(len == 4 * ((n + 2) / 3));
    assert(len - cl == if n % 3 == 0 { 0int } else if n % 3 == 1 { 2int } else { 1int });
    if n % 3 == 0 {
        if len > 0 {
            lemma_sextet_of(b, len - 1);
        }
    } else if n % 3 == 2 {
        lemma_sextet_of(b, len - 2);
    }
    assert(padding(e) == len - cl);
    assert forall|i: int| 0 <= i < len - padding(e) implies #[trigger] is_base64_char(e[i]) by {
        lemma_sextet_of(b, i);
    }
    let c = e.take(cl);
    assert(spells(c, b));
    lemma_groups(c, b, n / 3);
    lemma_tail(c, b);
    assert(c.len() / 4 == n / 3);
    assert(b.take(3 * (n / 3)) + b.skip(3 * (n / 3)) =~= b);
}

/// Decoding undoes encoding: the base64 of any text's UTF-8 decodes to that
/// text.
pub proof fn lemma_base64_round_trip(t: Seq<char>)
    ensures
        base64_decoded(base64_encode(encode_utf8(t))) == Some(t),
{
    lemma_base64_bytes_round_trip(encode_utf8(t));
    encode_utf8_valid_utf8(t);
    encode_utf8_decode_utf8(t);
}

} // verus!
