//! Canonical names: the scope in which a type is declared, cut from the full
//! name of the type.

use crate::text::{lemma_encode_concat, lemma_encode_prefix_grows};
use vstd::prelude::*;
use vstd::string::*;
use vstd::utf8::*;

verus! {

/// The byte that encodes a colon.
pub const COLON: u8 = 0x3a;

/// The scope separator `::` stands in `name` at place `i`.
pub open spec fn separator_at(name: Seq<char>, i: int) -> bool {
    &&& 0 <= i
    &&& i + 1 < name.len()
    &&& name[i] == ':'
    &&& name[i + 1] == ':'
}

/// The scope separator stands in `name` at place `i`, and nowhere after it.
pub open spec fn last_separator_at(name: Seq<char>, i: int) -> bool {
    &&& separator_at(name, i)
    &&& forall|j: int| i < j ==> !separator_at(name, j)
}

/// The scope separator stands somewhere in `name`.
pub open spec fn has_separator(name: Seq<char>) -> bool {
    exists|i: int| separator_at(name, i)
}

/// The canonical name that belongs to the full name `name`: what stands
/// before the last scope separator, and all of `name` where it holds none.
///
/// The last separator is looked for in the whole of `name`, also between the
/// angle brackets of a generic type: `a::B<c::D>` gives `a::B<c`.
pub open spec fn canonical_name(name: Seq<char>) -> Seq<char> {
    if has_separator(name) {
        name.take(choose|i: int| last_separator_at(name, i))
    } else {
        name
    }
}

/// Where the last separator of `name` stands at `i`, the canonical name is
/// the first `i` characters of `name`.
pub proof fn lemma_canonical_name_cut(name: Seq<char>, i: int)
    requires
        last_separator_at(name, i),
    ensures
        canonical_name(name) == name.take(i),
{
    let c = choose|c: int| last_separator_at(name, c);
    assert(separator_at(name, c) && separator_at(name, i));
}

/// A name that holds no separator is its own canonical name.
pub proof fn lemma_canonical_name_of_unscoped(name: Seq<char>)
    requires
        !has_separator(name),
    ensures
        canonical_name(name) == name,
{
}

/// A name that holds a separator before place `n`, and none from `n` on,
/// holds a last separator.
proof fn lemma_last_separator_below(name: Seq<char>, i: int, n: int)
    requires
        separator_at(name, i),
        i < n,
        forall|j: int| n <= j ==> !separator_at(name, j),
    ensures
        exists|k: int| last_separator_at(name, k),
    decreases n - i,
{
    if separator_at(name, n - 1) {
        assert(last_separator_at(name, n - 1));
    } else {
        lemma_last_separator_below(name, i, n - 1);
    }
}

/// A name that holds a separator holds a last one, and its canonical name is
/// what stands before that one.
pub proof fn lemma_canonical_name_of_scoped(name: Seq<char>)
    requires
        has_separator(name),
    ensures
        exists|k: int| last_separator_at(name, k) && canonical_name(name) == name.take(k),
{
    let i = choose|i: int| separator_at(name, i);
    lemma_last_separator_below(name, i, name.len() as int);
    let k = choose|k: int| last_separator_at(name, k);
    lemma_canonical_name_cut(name, k);
}

/// Two colons stand in `bytes` at place `p`.
pub open spec fn byte_separator_at(bytes: Seq<u8>, p: int) -> bool {
    &&& 0 <= p
    &&& p + 1 < bytes.len()
    &&& bytes[p] == COLON
    &&& bytes[p + 1] == COLON
}

/// The encoding of a text that starts with a colon starts with the byte of
/// the colon, and goes on with the encoding of the rest.
proof fn lemma_encode_leading_colon(s: Seq<char>)
    requires
        s.len() > 0,
        s[0] == ':',
    ensures
        encode_utf8(s) == seq![COLON] + encode_utf8(s.drop_first()),
{
    let c = ':' as u32;
    assert(c == 0x3a);
    assert((c & 0x7f) as u8 == 0x3a) by (bit_vector)
        requires
            c == 0x3a,
    ;
    assert(encode_scalar(c) =~= seq![COLON]);
}

/// Valid bytes that start with the byte of a colon hold a text that starts
/// with a colon, and go on with the bytes of the rest.
proof fn lemma_decode_leading_colon(t: Seq<u8>)
    requires
        valid_utf8(t),
        t.len() > 0,
        t[0] == COLON,
    ensures
        valid_utf8(t.subrange(1, t.len() as int)),
        decode_utf8(t) == seq![':'] + decode_utf8(t.subrange(1, t.len() as int)),
{
    let b = t[0];
    assert((b & 0x7f) as u32 == 0x3a) by (bit_vector)
        requires
            b == 0x3a,
    ;
    assert(decode_first_scalar(t) == 0x3a);
    assert(pop_first_scalar(t) == t.subrange(1, t.len() as int));
    char_u32_cast(':', 0x3a);
}

/// A separator in a name shows as two colons in its encoding, at the place
/// where the encoding of what stands before the separator ends.
pub proof fn lemma_separator_in_bytes(name: Seq<char>, i: int)
    requires
        separator_at(name, i),
    ensures
        byte_separator_at(encode_utf8(name), encode_utf8(name.take(i)).len() as int),
{
    let head = name.take(i);
    let tail = name.skip(i);
    assert(name =~= head + tail);
    lemma_encode_concat(head, tail);
    lemma_encode_leading_colon(tail);
    lemma_encode_leading_colon(tail.drop_first());
}

/// The characters of `name` that the first `p` bytes of its encoding hold.
pub open spec fn decoded_upto(name: Seq<char>, p: int) -> Seq<char> {
    decode_utf8(encode_utf8(name).subrange(0, p))
}

/// Two colons in the encoding of a name are a separator in the name: they
/// stand on a character boundary, and the bytes before them hold the
/// characters before that separator.
pub proof fn lemma_separator_in_chars(name: Seq<char>, p: int)
    requires
        byte_separator_at(encode_utf8(name), p),
    ensures
        is_char_boundary(encode_utf8(name), p),
        encode_utf8(decoded_upto(name, p)) == encode_utf8(name).subrange(0, p),
        decoded_upto(name, p) == name.take(decoded_upto(name, p).len() as int),
        separator_at(name, decoded_upto(name, p).len() as int),
{
    let bytes = encode_utf8(name);
    let head = bytes.subrange(0, p);
    let tail = bytes.subrange(p, bytes.len() as int);
    encode_utf8_valid_utf8(name);
    encode_utf8_decode_utf8(name);
    is_char_boundary_iff_is_leading_byte(bytes, p);
    assert(is_leading_byte_width_1(bytes[p]));
    valid_utf8_split(bytes, p);
    decode_utf8_split(bytes, p);
    decode_utf8_encode_utf8(head);
    lemma_decode_leading_colon(tail);
    let rest = tail.subrange(1, tail.len() as int);
    assert(rest[0] == bytes[p + 1]);
    lemma_decode_leading_colon(rest);
    let k = decode_utf8(head).len() as int;
    assert(name =~= decode_utf8(head) + decode_utf8(tail));
    assert(decode_utf8(head) =~= name.take(k));
}

/// The canonical name of `name`: `name` up to its last scope separator, or
/// all of it where it holds none.
pub fn canonical_name_of<'a>(name: &'a str) -> (canonical: &'a str)
    ensures
        canonical@ == canonical_name(name@),
{
    let bytes = name.as_bytes();
    let mut end: usize = bytes.len();
    while end >= 2
        invariant
            bytes@ == encode_utf8(name@),
            end <= bytes.len(),
            forall|p: int| end - 1 <= p ==> !byte_separator_at(bytes@, p),
        decreases end,
    {
        if bytes[end - 2] == COLON && bytes[end - 1] == COLON {
            let cut: usize = end - 2;
            proof {
                lemma_separator_in_chars(name@, cut as int);
            }
            let (head, _) = name.split_at(cut);
            proof {
                let k = head@.len() as int;
                encode_utf8_decode_utf8(head@);
                assert(head@ == name@.take(k));
                assert forall|j: int| k < j implies !separator_at(name@, j) by {
                    if separator_at(name@, j) {
                        lemma_separator_in_bytes(name@, j);
                        lemma_encode_prefix_grows(name@, k, j);
                    }
                }
                lemma_canonical_name_cut(name@, k);
            }
            return head;
        }
        end -= 1;
    }
    proof {
        assert forall|j: int| !separator_at(name@, j) by {
            if separator_at(name@, j) {
                lemma_separator_in_bytes(name@, j);
            }
        }
    }
    name
}

} // verus!
