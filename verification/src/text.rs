//! Text and its UTF-8 encoding.
//!
//! A string is held as the UTF-8 encoding of its characters, and is compared
//! byte by byte. What the library says of a string it says of the
//! characters; this module carries facts from the bytes over to them.

use crate::lexical::{
    byte_rank, bytes_relation, char_rank, compare_bytes, lemma_lex_before_asymmetric,
    lemma_lex_before_total, lemma_ranks_injective, lex_before, parts_below_at, text_relation,
};
use crate::relation::Relation;
use vstd::prelude::*;
use vstd::string::*;
use vstd::utf8::*;

verus! {

/// The encoding of two texts joined is the two encodings joined.
pub proof fn lemma_encode_concat(a: Seq<char>, b: Seq<char>)
    ensures
        encode_utf8(a + b) == encode_utf8(a) + encode_utf8(b),
    decreases a.len(),
{
    if a.len() == 0 {
        assert(a + b =~= b);
        assert(encode_utf8(a) + encode_utf8(b) =~= encode_utf8(b));
    } else {
        assert((a + b).drop_first() =~= a.drop_first() + b);
        lemma_encode_concat(a.drop_first(), b);
        assert(encode_utf8(a + b) =~= encode_utf8(a) + encode_utf8(b));
    }
}

/// Every character takes at least one byte.
pub proof fn lemma_encode_len(a: Seq<char>)
    ensures
        encode_utf8(a).len() >= a.len(),
    decreases a.len(),
{
    if a.len() > 0 {
        lemma_encode_len(a.drop_first());
    }
}

/// A longer prefix of a text has a longer encoding.
pub proof fn lemma_encode_prefix_grows(a: Seq<char>, i: int, j: int)
    requires
        0 <= i < j <= a.len(),
    ensures
        encode_utf8(a.take(i)).len() < encode_utf8(a.take(j)).len(),
{
    assert(a.take(j) =~= a.take(i) + a.subrange(i, j));
    lemma_encode_concat(a.take(i), a.subrange(i, j));
    lemma_encode_len(a.subrange(i, j));
}

/// A character is a scalar value, and that value is its code point.
pub proof fn lemma_char_scalar(c: char)
    ensures
        is_scalar(c as u32),
        (c as u32) as int == c as int,
{
}

/// The encodings of the scalar values `x` and `y` agree on their first `d`
/// bytes, and that of `x` holds the smaller byte at place `d`.
pub open spec fn scalars_part_at(x: u32, y: u32, d: int) -> bool {
    &&& 0 <= d < encode_scalar(x).len()
    &&& d < encode_scalar(y).len()
    &&& forall|i: int| 0 <= i < d ==> encode_scalar(x)[i] == encode_scalar(y)[i]
    &&& encode_scalar(x)[d] < encode_scalar(y)[d]
}

/// The first byte of an encoding tells its width: the first bytes of the four
/// widths lie in four ranges, one above the other.
proof fn lemma_leading_bytes(s: u32)
    by (bit_vector)
    ensures
        leading_byte_width_1(s) <= 0x7f,
        0xc0 <= leading_byte_width_2(s) <= 0xdf,
        0xe0 <= leading_byte_width_3(s) <= 0xef,
        0xf0 <= leading_byte_width_4(s) <= 0xf7,
{
}

/// Of two scalar values that take one byte, the smaller has the smaller byte.
proof fn lemma_order_width_1(x: u32, y: u32)
    by (bit_vector)
    requires
        x < y,
        has_width_1_encoding(y),
    ensures
        leading_byte_width_1(x) < leading_byte_width_1(y),
{
}

/// Of two scalar values that take two bytes, the smaller has the smaller
/// byte where the two encodings first differ.
proof fn lemma_order_width_2(x: u32, y: u32)
    by (bit_vector)
    requires
        x < y,
        has_width_2_encoding(x),
        has_width_2_encoding(y),
    ensures
        leading_byte_width_2(x) < leading_byte_width_2(y) || (leading_byte_width_2(x)
            == leading_byte_width_2(y) && last_continuation_byte(x) < last_continuation_byte(y)),
{
}

/// The same of two scalar values that take three bytes.
proof fn lemma_order_width_3(x: u32, y: u32)
    by (bit_vector)
    requires
        x < y,
        has_width_3_encoding(x),
        has_width_3_encoding(y),
    ensures
        leading_byte_width_3(x) < leading_byte_width_3(y) || (leading_byte_width_3(x)
            == leading_byte_width_3(y) && (second_last_continuation_byte(x)
            < second_last_continuation_byte(y) || (second_last_continuation_byte(x)
            == second_last_continuation_byte(y) && last_continuation_byte(x)
            < last_continuation_byte(y)))),
{
}

/// The same of two scalar values that take four bytes.
proof fn lemma_order_width_4(x: u32, y: u32)
    by (bit_vector)
    requires
        x < y,
        has_width_4_encoding(x),
        has_width_4_encoding(y),
    ensures
        leading_byte_width_4(x) < leading_byte_width_4(y) || (leading_byte_width_4(x)
            == leading_byte_width_4(y) && (third_last_continuation_byte(x)
            < third_last_continuation_byte(y) || (third_last_continuation_byte(x)
            == third_last_continuation_byte(y) && (second_last_continuation_byte(x)
            < second_last_continuation_byte(y) || (second_last_continuation_byte(x)
            == second_last_continuation_byte(y) && last_continuation_byte(x)
            < last_continuation_byte(y)))))),
{
}

/// Of two scalar values, the smaller has the encoding that comes first: the
/// two encodings part ways at a byte that both of them hold.
pub proof fn lemma_encode_scalar_order(x: u32, y: u32)
    requires
        is_scalar(x),
        is_scalar(y),
        x < y,
    ensures
        exists|d: int| scalars_part_at(x, y, d),
{
    let ex = encode_scalar(x);
    let ey = encode_scalar(y);
    lemma_leading_bytes(x);
    lemma_leading_bytes(y);
    if has_width_1_encoding(y) {
        lemma_order_width_1(x, y);
        assert(scalars_part_at(x, y, 0));
    } else if has_width_1_encoding(x) {
        assert(scalars_part_at(x, y, 0));
    } else if has_width_2_encoding(y) {
        lemma_order_width_2(x, y);
        if ex[0] < ey[0] {
            assert(scalars_part_at(x, y, 0));
        } else {
            assert(scalars_part_at(x, y, 1));
        }
    } else if has_width_2_encoding(x) {
        assert(scalars_part_at(x, y, 0));
    } else if has_width_3_encoding(y) {
        lemma_order_width_3(x, y);
        if ex[0] < ey[0] {
            assert(scalars_part_at(x, y, 0));
        } else if ex[1] < ey[1] {
            assert(scalars_part_at(x, y, 1));
        } else {
            assert(scalars_part_at(x, y, 2));
        }
    } else if has_width_3_encoding(x) {
        assert(scalars_part_at(x, y, 0));
    } else {
        lemma_order_width_4(x, y);
        if ex[0] < ey[0] {
            assert(scalars_part_at(x, y, 0));
        } else if ex[1] < ey[1] {
            assert(scalars_part_at(x, y, 1));
        } else if ex[2] < ey[2] {
            assert(scalars_part_at(x, y, 2));
        } else {
            assert(scalars_part_at(x, y, 3));
        }
    }
}

/// A text that comes before another has the encoding that comes before the
/// other's.
pub proof fn lemma_encoding_keeps_before(a: Seq<char>, b: Seq<char>)
    requires
        lex_before(a, b, char_rank()),
    ensures
        lex_before(encode_utf8(a), encode_utf8(b), byte_rank()),
{
    let k = choose|k: int| parts_below_at(a, b, char_rank(), k);
    let head = a.take(k);
    let rest_a = a.skip(k);
    let rest_b = b.skip(k);
    assert(head =~= b.take(k));
    assert(a =~= head + rest_a);
    assert(b =~= head + rest_b);
    lemma_encode_concat(head, rest_a);
    lemma_encode_concat(head, rest_b);
    let ea = encode_utf8(a);
    let eb = encode_utf8(b);
    let p = encode_utf8(head).len() as int;
    lemma_encode_len(rest_b);
    if k == a.len() {
        assert(parts_below_at(ea, eb, byte_rank(), p));
    } else {
        let x = a[k] as u32;
        let y = b[k] as u32;
        lemma_char_scalar(a[k]);
        lemma_char_scalar(b[k]);
        assert(char_rank()(a[k]) < char_rank()(b[k]));
        lemma_encode_scalar_order(x, y);
        let d = choose|d: int| scalars_part_at(x, y, d);
        assert(encode_utf8(rest_a) == encode_scalar(x) + encode_utf8(rest_a.drop_first()));
        assert(encode_utf8(rest_b) == encode_scalar(y) + encode_utf8(rest_b.drop_first()));
        assert forall|i: int| 0 <= i < p + d implies ea[i] == eb[i] by {
            if i >= p {
                assert(ea[i] == encode_scalar(x)[i - p]);
                assert(eb[i] == encode_scalar(y)[i - p]);
            }
        }
        assert(ea[p + d] == encode_scalar(x)[d]);
        assert(eb[p + d] == encode_scalar(y)[d]);
        assert(parts_below_at(ea, eb, byte_rank(), p + d));
    }
}

/// Encoding keeps the order: two texts stand to each other as their
/// encodings do.
pub proof fn lemma_encoding_keeps_order(a: Seq<char>, b: Seq<char>)
    ensures
        bytes_relation(encode_utf8(a), encode_utf8(b)) == text_relation(a, b),
{
    lemma_ranks_injective();
    if a != b {
        lemma_lex_before_total(a, b, char_rank());
        if lex_before(a, b, char_rank()) {
            lemma_encoding_keeps_before(a, b);
            lemma_lex_before_asymmetric(encode_utf8(a), encode_utf8(b), byte_rank());
        } else {
            lemma_encoding_keeps_before(b, a);
            lemma_lex_before_asymmetric(encode_utf8(b), encode_utf8(a), byte_rank());
        }
    }
}

/// How the text `a` stands to `b`.
pub fn compare_text(a: &str, b: &str) -> (relation: Relation)
    ensures
        relation == text_relation(a@, b@),
{
    proof {
        lemma_encoding_keeps_order(a@, b@);
    }
    compare_bytes(a.as_bytes(), b.as_bytes())
}

} // verus!
