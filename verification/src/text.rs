//! Byte-level reasoning about UTF-8 encoded source text: counting Unicode
//! scalar values inside a byte range, character-boundary facts, and the
//! trimming of line terminators.

use vstd::prelude::*;
use vstd::utf8::*;

verus! {

/// The line-terminator byte, `\n`.
pub const NEWLINE: u8 = 10;

/// The carriage-return byte, `\r`, treated as ordinary content except when it
/// trails a line.
pub const CARRIAGE_RETURN: u8 = 13;

/// The number of Unicode scalar values that begin in `b`: every byte that is
/// not a UTF-8 continuation byte starts a scalar, so for valid UTF-8 this is
/// the number of characters encoded by `b` (see [`lemma_scalar_count_is_decoded_len`]).
pub open spec fn scalar_count(b: Seq<u8>) -> int
    decreases b.len(),
{
    if b.len() == 0 {
        0
    } else {
        scalar_count(b.drop_last()) + if is_continuation_byte(b.last()) {
            0int
        } else {
            1int
        }
    }
}

/// `b` with every trailing `\n` and `\r` byte removed.
pub open spec fn trim_line_end(b: Seq<u8>) -> Seq<u8>
    decreases b.len(),
{
    if b.len() > 0 && (b.last() == NEWLINE || b.last() == CARRIAGE_RETURN) {
        trim_line_end(b.drop_last())
    } else {
        b
    }
}

/// A scalar count never exceeds the number of bytes counted.
pub proof fn lemma_scalar_count_bounds(b: Seq<u8>)
    ensures
        0 <= scalar_count(b) <= b.len(),
    decreases b.len(),
{
    if b.len() > 0 {
        lemma_scalar_count_bounds(b.drop_last());
    }
}

/// Scalar counts add over concatenation.
pub proof fn lemma_scalar_count_concat(a: Seq<u8>, b: Seq<u8>)
    ensures
        scalar_count(a + b) == scalar_count(a) + scalar_count(b),
    decreases b.len(),
{
    if b.len() == 0 {
        assert(a + b =~= a);
    } else {
        assert((a + b).drop_last() =~= a + b.drop_last());
        lemma_scalar_count_concat(a, b.drop_last());
    }
}

/// In a sequence whose first byte starts a scalar and whose remaining bytes
/// are all continuation bytes, exactly one scalar begins.
proof fn lemma_scalar_count_single(b: Seq<u8>)
    requires
        b.len() >= 1,
        !is_continuation_byte(b[0]),
        forall|i: int| 1 <= i < b.len() ==> is_continuation_byte(#[trigger] b[i]),
    ensures
        scalar_count(b) == 1,
    decreases b.len(),
{
    if b.len() == 1 {
        assert(b.drop_last() =~= Seq::<u8>::empty());
        assert(b.last() == b[0]);
        assert(scalar_count(Seq::<u8>::empty()) == 0);
    } else {
        assert(b.last() == b[b.len() - 1]);
        assert(is_continuation_byte(b[b.len() - 1]));
        assert(forall|i: int|
            1 <= i < b.drop_last().len() ==> is_continuation_byte(#[trigger] b.drop_last()[i]))
            by {
            assert(forall|i: int| 1 <= i < b.drop_last().len() ==> b.drop_last()[i] == b[i]);
        }
        assert(is_continuation_byte(b.last()));
        lemma_scalar_count_single(b.drop_last());
    }
}

/// The first byte of a valid UTF-8 sequence is never a continuation byte.
pub proof fn lemma_first_byte_starts_scalar(b: Seq<u8>)
    requires
        valid_utf8(b),
        b.len() > 0,
    ensures
        !is_continuation_byte(b[0]),
{
    assert(valid_first_scalar(b));
}

/// For valid UTF-8 bytes, the count of scalar-starting bytes equals the
/// number of decoded characters.
pub proof fn lemma_scalar_count_is_decoded_len(b: Seq<u8>)
    requires
        valid_utf8(b),
    ensures
        scalar_count(b) == decode_utf8(b).len(),
    decreases b.len(),
{
    if b.len() > 0 {
        let head = take_first_scalar(b);
        let tail = pop_first_scalar(b);
        assert(valid_first_scalar(b));
        assert(b =~= head + tail);
        lemma_scalar_count_concat(head, tail);
        assert(scalar_count(head) == 1) by {
            assert(!is_continuation_byte(head[0]));
            assert(forall|i: int|
                1 <= i < head.len() ==> is_continuation_byte(#[trigger] head[i]));
            lemma_scalar_count_single(head);
        }
        lemma_scalar_count_is_decoded_len(tail);
    }
}

/// An index of a valid UTF-8 sequence is a character boundary when it is the
/// end of the sequence or its byte does not continue a scalar.
pub proof fn lemma_boundary_at_scalar_start(b: Seq<u8>, i: int)
    requires
        valid_utf8(b),
        0 <= i <= b.len(),
        0 < i < b.len() ==> !is_continuation_byte(b[i]),
    ensures
        is_char_boundary(b, i),
{
    if i == b.len() || i == 0 {
        is_char_boundary_start_end_of_seq(b);
    } else {
        is_char_boundary_iff_not_is_continuation_byte(b, i);
    }
}

/// The index just past a one-byte (ASCII) scalar is a character boundary.
pub proof fn lemma_boundary_after_ascii(b: Seq<u8>, i: int)
    requires
        valid_utf8(b),
        0 < i <= b.len(),
        b[i - 1] < 0x80,
    ensures
        is_char_boundary(b, i),
{
    if i < b.len() {
        is_char_boundary_iff_not_is_continuation_byte(b, i - 1);
        valid_utf8_split(b, i - 1);
        let s = b.subrange(i - 1, b.len() as int);
        assert(valid_first_scalar(s));
        assert(is_leading_byte_width_1(s[0]));
        assert(length_of_first_scalar(s) == 1);
        let rest = pop_first_scalar(s);
        assert(valid_utf8(rest));
        assert(rest.len() > 0);
        lemma_first_byte_starts_scalar(rest);
        assert(rest[0] == b[i]);
        is_char_boundary_iff_not_is_continuation_byte(b, i);
    } else {
        is_char_boundary_start_end_of_seq(b);
    }
}

/// A sub-range of valid UTF-8 text cut at character boundaries is itself
/// valid UTF-8, and a boundary of the whole text inside the range is a
/// boundary of the sub-range.
pub proof fn lemma_boundary_in_subrange(b: Seq<u8>, lo: int, m: int, hi: int)
    requires
        valid_utf8(b),
        0 <= lo <= m <= hi <= b.len(),
        is_char_boundary(b, lo),
        is_char_boundary(b, m),
        is_char_boundary(b, hi),
    ensures
        valid_utf8(b.subrange(lo, hi)),
        is_char_boundary(b.subrange(lo, hi), m - lo),
{
    valid_utf8_split(b, lo);
    let suffix = b.subrange(lo, b.len() as int);
    assert(is_char_boundary(suffix, hi - lo)) by {
        if hi - lo < suffix.len() {
            is_char_boundary_iff_not_is_continuation_byte(b, hi);
            is_char_boundary_iff_not_is_continuation_byte(suffix, hi - lo);
        } else {
            is_char_boundary_start_end_of_seq(suffix);
        }
    }
    valid_utf8_split(suffix, hi - lo);
    let sub = b.subrange(lo, hi);
    assert(sub =~= suffix.subrange(0, hi - lo));
    assert(is_char_boundary(sub, m - lo)) by {
        if m < hi {
            is_char_boundary_iff_not_is_continuation_byte(b, m);
            is_char_boundary_iff_not_is_continuation_byte(sub, m - lo);
        } else {
            is_char_boundary_start_end_of_seq(sub);
        }
    }
}

/// Counts the Unicode scalar values that begin in `bytes[from..to]`.
pub fn count_scalars(bytes: &[u8], from: usize, to: usize) -> (r: usize)
    requires
        from <= to <= bytes@.len(),
    ensures
        r == scalar_count(bytes@.subrange(from as int, to as int)),
{
    let mut j: usize = from;
    let mut count: usize = 0;
    while j < to
        invariant
            from <= j <= to <= bytes@.len(),
            count == scalar_count(bytes@.subrange(from as int, j as int)),
            count <= j - from,
        decreases to - j,
    {
        proof {
            lemma_scalar_count_bounds(bytes@.subrange(from as int, j as int));
            assert(bytes@.subrange(from as int, j + 1).drop_last() =~= bytes@.subrange(
                from as int,
                j as int,
            ));
            assert(bytes@.subrange(from as int, j + 1).last() == bytes@[j as int]);
        }
        let byte = bytes[j];
        if byte < 0x80 || byte >= 0xc0 {
            count = count + 1;
        }
        j = j + 1;
    }
    count
}

} // verus!
