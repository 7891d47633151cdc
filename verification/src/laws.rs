//! Properties of the library that relate several operations, stated over the views and
//! spec functions that the operations' contracts use.
use vstd::prelude::*;
use vstd::utf8::*;

use vstd::std_specs::cmp::PartialEqSpec;

use crate::codec::{is_whitespace_char, lemma_encode_concat, lemma_encode_single};
use crate::destring::{
    concat_chars,
    concat_len,
    end_index,
    lex_sign,
    start_index,
    trim_end_chars,
    trim_start_chars,
    DeString,
    RangeBound,
};

verus! {

broadcast use vstd::seq::group_seq_axioms;

/// `pop_back` undoes `push_char_back`. Let `y` be what `push_char_back(c)` makes of `x`, and
/// `z` what `pop_back` then makes of `y` (each related to the one before by that function's
/// `ensures`): `pop_back` returns `c`, and `z` holds the characters and the bytes of `x`.
pub proof fn law_pop_back_undoes_push_char_back(x: &DeString, y: &DeString, z: &DeString, c: char)
    requires
        x.wf(),
        y@ == x@.push(c),
        y.bytes() == x.bytes() + encode_scalar(c as u32),
        z@ == y@.drop_last(),
        y.bytes() == z.bytes() + encode_scalar(y@.last() as u32),
    ensures
        y@.last() == c,
        z@ == x@,
        z.bytes() == x.bytes(),
{
    assert(x@.push(c).drop_last() =~= x@);
    let e = encode_scalar(c as u32);
    assert(z.bytes() =~= y.bytes().subrange(0, y.bytes().len() - e.len()));
    assert(x.bytes() =~= y.bytes().subrange(0, y.bytes().len() - e.len()));
}

/// `pop_front` undoes `push_char_front`. Let `y` be what `push_char_front(c)` makes of `x`,
/// and `z` what `pop_front` then makes of `y`: `pop_front` returns `c`, and `z` holds the
/// characters and the bytes of `x`.
pub proof fn law_pop_front_undoes_push_char_front(
    x: &DeString,
    y: &DeString,
    z: &DeString,
    c: char,
)
    requires
        x.wf(),
        y@ == seq![c] + x@,
        y.bytes() == encode_scalar(c as u32) + x.bytes(),
        z@ == y@.drop_first(),
        y.bytes() == encode_scalar(y@[0] as u32) + z.bytes(),
    ensures
        y@[0] == c,
        z@ == x@,
        z.bytes() == x.bytes(),
{
    assert((seq![c] + x@).drop_first() =~= x@);
    let e = encode_scalar(c as u32);
    assert(z.bytes() =~= y.bytes().subrange(e.len() as int, y.bytes().len() as int));
    assert(x.bytes() =~= y.bytes().subrange(e.len() as int, y.bytes().len() as int));
}

/// Strings pushed at the back one after the other end up in the order they were pushed;
/// strings pushed at the front one after the other end up in the reverse order.
pub proof fn law_push_str_order(s: Seq<char>, a: Seq<char>, b: Seq<char>)
    ensures
        (s + a) + b == s + (a + b),
        b + (a + s) == (b + a) + s,
{
    assert((s + a) + b =~= s + (a + b));
    assert(b + (a + s) =~= (b + a) + s);
}

/// Each character takes one to four bytes: a string of `n` characters has between `n` and
/// `4 * n` bytes.
pub proof fn law_utf8_length_bounds(s: Seq<char>)
    ensures
        s.len() <= encode_utf8(s).len() <= 4 * s.len(),
    decreases s.len(),
{
    if s.len() > 0 {
        law_utf8_length_bounds(s.drop_first());
    }
}

/// Two character sequences are equal exactly when their UTF-8 encodings are.
pub proof fn law_encoding_is_injective_chars(a: Seq<char>, b: Seq<char>)
    ensures
        (encode_utf8(a) == encode_utf8(b)) == (a == b),
{
    if encode_utf8(a) == encode_utf8(b) {
        law_encoding_is_injective(a, b);
    }
}

/// The byte order used by `compare_bytes` and `<` is decided by the first position where the
/// two byte sequences differ: if `a` and `b` agree on their first `k` bytes and `a[k] < b[k]`,
/// then `a` comes first (`-1`) and `b` comes after `a` (`1`).
pub proof fn law_order_first_difference(a: Seq<u8>, b: Seq<u8>, k: int)
    requires
        0 <= k < a.len(),
        k < b.len(),
        a.subrange(0, k) == b.subrange(0, k),
        a[k] < b[k],
    ensures
        lex_sign(a, b) == -1,
        lex_sign(b, a) == 1,
    decreases k,
{
    if k > 0 {
        assert(a[0] == a.subrange(0, k)[0]);
        assert(b[0] == b.subrange(0, k)[0]);
        assert(a.drop_first().subrange(0, k - 1) =~= a.subrange(0, k).drop_first());
        assert(b.drop_first().subrange(0, k - 1) =~= b.subrange(0, k).drop_first());
        law_order_first_difference(a.drop_first(), b.drop_first(), k - 1);
    }
}

/// A proper prefix comes before the longer sequence, and a sequence is equal to itself in the
/// byte order.
pub proof fn law_order_prefix(a: Seq<u8>, b: Seq<u8>)
    ensures
        a.len() < b.len() && a == b.subrange(0, a.len() as int) ==> lex_sign(a, b) == -1
            && lex_sign(b, a) == 1,
        lex_sign(a, a) == 0,
    decreases a.len(),
{
    if a.len() > 0 {
        law_order_prefix(a.drop_first(), a.drop_first());
        if a.len() < b.len() && a == b.subrange(0, a.len() as int) {
            assert(a[0] == b[0]);
            assert(a.drop_first() =~= b.drop_first().subrange(0, a.len() - 1));
            law_order_prefix(a.drop_first(), b.drop_first());
        }
    }
}

/// Comparing two well-formed strings with `==` holds exactly when they hold the same
/// characters (equivalently the same bytes), and so does comparing with a string slice or
/// a `String` holding those characters.
pub proof fn law_eq_is_equality_of_chars(x: &DeString, y: &DeString, s: &str, t: String)
    requires
        x.wf(),
        y.wf(),
    ensures
        x.eq_spec(y) == (x@ == y@),
        x.eq_spec(y) == (x.bytes() == y.bytes()),
        x.eq_spec(s) == (x@ == s@),
        x.eq_spec(&t) == (x@ == t@),
{
    x.lemma_wf();
    y.lemma_wf();
    law_encoding_is_injective_chars(x@, s@);
    law_encoding_is_injective_chars(x@, t@);
}

/// The positions that range bounds stand for: an inclusive end is the position just after
/// it, the same end as the exclusive bound one further on; an exclusive start is the start
/// one further on; an exclusive end is the position itself; an open start is position 0
/// and an open end is the length.
pub proof fn law_range_bounds(a: usize, b: usize, len: int)
    ensures
        end_index(RangeBound::Included(b), len) == b + 1,
        b < usize::MAX ==> end_index(RangeBound::Included(b), len) == end_index(
            RangeBound::Excluded((b + 1) as usize),
            len,
        ),
        end_index(RangeBound::Excluded(b), len) == b,
        end_index(RangeBound::Unbounded, len) == len,
        start_index(RangeBound::Included(a)) == a,
        start_index(RangeBound::Excluded(a)) == a + 1,
        a < usize::MAX ==> start_index(RangeBound::Excluded(a)) == start_index(
            RangeBound::Included((a + 1) as usize),
        ),
        start_index(RangeBound::Unbounded) == 0,
        end_index(RangeBound::Included(b), len) - start_index(RangeBound::Included(a)) == b - a
            + 1,
{
}

/// Concatenating strings keeps every part, in order: the characters of a concatenation of
/// two lists are those of the first list followed by those of the second, a single part
/// gives its own characters, and the bytes of all parts together are the UTF-8 encoding of
/// those characters.
pub proof fn law_concat_keeps_every_part(parts: Seq<DeString>, more: Seq<DeString>, p: DeString)
    ensures
        concat_chars(Seq::<DeString>::empty()) == Seq::<char>::empty(),
        concat_chars(seq![p]) == p@,
        concat_chars(parts.push(p)) == concat_chars(parts) + p@,
        concat_len(parts.push(p)) == concat_len(parts) + p.bytes().len(),
        concat_chars(parts + more) == concat_chars(parts) + concat_chars(more),
        concat_len(parts + more) == concat_len(parts) + concat_len(more),
        (forall|k: int| 0 <= k < parts.len() ==> (#[trigger] parts[k]).wf()) ==> concat_len(
            parts,
        ) == encode_utf8(concat_chars(parts)).len(),
    decreases more.len(),
{
    assert(seq![p].drop_last() =~= Seq::<DeString>::empty());
    assert(concat_chars(Seq::<DeString>::empty()) == Seq::<char>::empty());
    assert(concat_chars(seq![p]) == concat_chars(seq![p].drop_last()) + seq![p].last()@);
    assert(parts.push(p).drop_last() =~= parts);
    assert(Seq::<char>::empty() + p@ =~= p@);
    if more.len() == 0 {
        assert(parts + more =~= parts);
        assert(concat_chars(parts) + Seq::<char>::empty() =~= concat_chars(parts));
    } else {
        law_concat_keeps_every_part(parts, more.drop_last(), p);
        assert((parts + more).drop_last() =~= parts + more.drop_last());
        assert((parts + more).last() == more.last());
        assert(concat_chars(parts + more) =~= concat_chars(parts) + concat_chars(more));
    }
    if forall|k: int| 0 <= k < parts.len() ==> (#[trigger] parts[k]).wf() {
        lemma_concat_len_encoding(parts);
    }
}

/// The bytes of well-formed parts, all together, are the UTF-8 encoding of all their
/// characters.
proof fn lemma_concat_len_encoding(parts: Seq<DeString>)
    requires
        forall|k: int| 0 <= k < parts.len() ==> (#[trigger] parts[k]).wf(),
    ensures
        concat_len(parts) == encode_utf8(concat_chars(parts)).len(),
    decreases parts.len(),
{
    if parts.len() > 0 {
        let init = parts.drop_last();
        assert forall|k: int| 0 <= k < init.len() implies (#[trigger] init[k]).wf() by {
            assert(init[k] == parts[k]);
        }
        lemma_concat_len_encoding(init);
        let last = parts.last();
        assert(last == parts[parts.len() - 1]);
        last.lemma_wf();
        lemma_encode_concat(concat_chars(init), last@);
    }
}

/// Exactly these characters count as whitespace when trimming: U+0009..U+000D, U+0020,
/// U+0085, U+00A0, U+1680, U+2000..U+200A, U+2028, U+2029, U+202F, U+205F and U+3000; in
/// particular nothing above U+3000, and among ASCII characters only tab, line feed,
/// vertical tab, form feed, carriage return and space.
pub proof fn law_whitespace_set(c: char)
    ensures
        is_whitespace_char(c) <==> set![
            0x09u32,
            0x0Au32,
            0x0Bu32,
            0x0Cu32,
            0x0Du32,
            0x20u32,
            0x85u32,
            0xA0u32,
            0x1680u32,
            0x2000u32,
            0x2001u32,
            0x2002u32,
            0x2003u32,
            0x2004u32,
            0x2005u32,
            0x2006u32,
            0x2007u32,
            0x2008u32,
            0x2009u32,
            0x200Au32,
            0x2028u32,
            0x2029u32,
            0x202Fu32,
            0x205Fu32,
            0x3000u32,
        ].contains(c as u32),
        (c as u32) > 0x3000 ==> !is_whitespace_char(c),
        (c as u32) < 0x80 ==> (is_whitespace_char(c) <==> (0x09 <= (c as u32) <= 0x0D || (c
            as u32) == 0x20)),
{
}

/// Different character sequences have different UTF-8 encodings.
pub proof fn law_encoding_is_injective(a: Seq<char>, b: Seq<char>)
    requires
        encode_utf8(a) == encode_utf8(b),
    ensures
        a == b,
{
    encode_utf8_decode_utf8(a);
    encode_utf8_decode_utf8(b);
}

/// Two well-formed strings hold the same bytes exactly when they hold the same
/// characters, so `==` on `DeString`s compares their characters.
pub proof fn law_equal_bytes_iff_equal_chars(x: &DeString, y: &DeString)
    requires
        x.wf(),
        y.wf(),
    ensures
        (x.bytes() == y.bytes()) == (x@ == y@),
{
    x.lemma_wf();
    y.lemma_wf();
}

/// The bytes of a well-formed string are valid UTF-8 and decode to its characters, so
/// `DeString::from_utf8` accepts them; and the encoding of a pushed character is valid
/// UTF-8 that decodes to that character.
pub proof fn law_bytes_are_valid_utf8(x: &DeString, c: char)
    requires
        x.wf(),
    ensures
        valid_utf8(x.bytes()),
        decode_utf8(x.bytes()) == x@,
        valid_utf8(encode_scalar(c as u32)),
        decode_utf8(encode_scalar(c as u32)) == seq![c],
{
    broadcast use encode_utf8_valid_utf8, encode_utf8_decode_utf8;

    x.lemma_wf();
    lemma_encode_single(c);
}

/// Encoding a concatenation gives the concatenated encodings: pushing a string's bytes is
/// pushing its characters.
pub proof fn law_encode_concat(a: Seq<char>, b: Seq<char>)
    ensures
        encode_utf8(a + b) == encode_utf8(a) + encode_utf8(b),
{
    lemma_encode_concat(a, b);
}

/// Trimming the front removes a run of leading whitespace and nothing else: the result is
/// a suffix of `s` whose dropped prefix is all whitespace, and it is empty or starts with a
/// character that is not whitespace.
pub proof fn law_trim_start_shape(s: Seq<char>)
    ensures
        exists|k: int|
            0 <= k <= s.len() && trim_start_chars(s) == s.subrange(k, s.len() as int) && (forall|
                i: int,
            | 0 <= i < k ==> is_whitespace_char(#[trigger] s[i])),
        trim_start_chars(s).len() == 0 || !is_whitespace_char(trim_start_chars(s)[0]),
    decreases s.len(),
{
    if s.len() > 0 && is_whitespace_char(s[0]) {
        let t = s.drop_first();
        law_trim_start_shape(t);
        let k = choose|k: int|
            0 <= k <= t.len() && trim_start_chars(t) == t.subrange(k, t.len() as int) && (forall|
                i: int,
            | 0 <= i < k ==> is_whitespace_char(#[trigger] t[i]));
        assert(trim_start_chars(s) == s.subrange(k + 1, s.len() as int));
        assert forall|i: int| 0 <= i < k + 1 implies is_whitespace_char(#[trigger] s[i]) by {
            if i > 0 {
                assert(s[i] == t[i - 1]);
            }
        }
    } else {
        assert(s.subrange(0, s.len() as int) =~= s);
    }
}

/// Trimming the back removes a run of trailing whitespace and nothing else: the result is
/// a prefix of `s` whose dropped suffix is all whitespace, and it is empty or ends with a
/// character that is not whitespace.
pub proof fn law_trim_end_shape(s: Seq<char>)
    ensures
        exists|k: int|
            0 <= k <= s.len() && trim_end_chars(s) == s.subrange(0, k) && (forall|i: int|
                k <= i < s.len() ==> is_whitespace_char(#[trigger] s[i])),
        trim_end_chars(s).len() == 0 || !is_whitespace_char(trim_end_chars(s).last()),
    decreases s.len(),
{
    if s.len() > 0 && is_whitespace_char(s.last()) {
        let t = s.drop_last();
        law_trim_end_shape(t);
        let k = choose|k: int|
            0 <= k <= t.len() && trim_end_chars(t) == t.subrange(0, k) && (forall|i: int|
                k <= i < t.len() ==> is_whitespace_char(#[trigger] t[i]));
        assert(trim_end_chars(s) =~= s.subrange(0, k));
        assert forall|i: int| k <= i < s.len() implies is_whitespace_char(#[trigger] s[i]) by {
            if i < s.len() - 1 {
                assert(s[i] == t[i]);
            }
        }
    } else {
        assert(s.subrange(0, s.len() as int) =~= s);
    }
}

/// Trimming the front twice is trimming it once.
pub proof fn law_trim_start_idempotent(s: Seq<char>)
    ensures
        trim_start_chars(trim_start_chars(s)) == trim_start_chars(s),
{
    law_trim_start_shape(s);
}

/// Trimming the back twice is trimming it once.
pub proof fn law_trim_end_idempotent(s: Seq<char>)
    ensures
        trim_end_chars(trim_end_chars(s)) == trim_end_chars(s),
{
    law_trim_end_shape(s);
}

/// A whitespace character pushed at the front is removed again by trimming the front; one
/// pushed at the back is removed again by trimming the back.
pub proof fn law_trim_removes_pushed_whitespace(s: Seq<char>, c: char)
    requires
        is_whitespace_char(c),
    ensures
        trim_start_chars(seq![c] + s) == trim_start_chars(s),
        trim_end_chars(s.push(c)) == trim_end_chars(s),
{
    assert((seq![c] + s).drop_first() =~= s);
    assert(s.push(c).drop_last() =~= s);
}

/// After trimming both ends, the result is empty or neither starts nor ends with
/// whitespace.
pub proof fn law_trim_both_ends(s: Seq<char>)
    ensures
        ({
            let t = trim_end_chars(trim_start_chars(s));
            t.len() == 0 || (!is_whitespace_char(t[0]) && !is_whitespace_char(t.last()))
        }),
{
    let u = trim_start_chars(s);
    law_trim_start_shape(s);
    law_trim_end_shape(u);
    let t = trim_end_chars(u);
    if t.len() > 0 {
        let k = choose|k: int|
            0 <= k <= u.len() && trim_end_chars(u) == u.subrange(0, k) && (forall|i: int|
                k <= i < u.len() ==> is_whitespace_char(#[trigger] u[i]));
        assert(t[0] == u[0]);
    }
}

} // verus!
