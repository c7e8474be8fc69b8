//! The capped scrollback buffer that is replayed to a reattaching client.
//!
//! Output is appended as it is decoded. Once the buffer holds more than
//! `SCROLLBACK_CAP` bytes of UTF-8, it is cut down to its last
//! `SCROLLBACK_KEEP` bytes, moved forward to the next character boundary so
//! that no character is split.

use vstd::prelude::*;
use vstd::utf8::*;
use vstd::string::StringSliceAdditionalSpecFns;

use crate::text::push_str;

verus! {

broadcast use vstd::seq_lib::group_seq_properties;

/// Size in bytes above which the scrollback is trimmed.
pub const SCROLLBACK_CAP: usize = 256_000;

/// Size in bytes that a trim keeps (at most).
pub const SCROLLBACK_KEEP: usize = 192_000;

/// The first character boundary of `bytes` at or after `idx`.
pub open spec fn next_char_boundary(bytes: Seq<u8>, idx: int) -> int
    decreases bytes.len() - idx,
{
    if idx >= bytes.len() || is_char_boundary(bytes, idx) {
        idx
    } else {
        next_char_boundary(bytes, idx + 1)
    }
}

/// Byte length of text once encoded as UTF-8.
pub open spec fn utf8_len(text: Seq<char>) -> nat {
    encode_utf8(text).len()
}

/// The scrollback after `text` has been appended to `old`.
pub open spec fn appended_scrollback(old: Seq<char>, text: Seq<char>) -> Seq<char> {
    let all = old + text;
    let bytes = encode_utf8(all);
    if bytes.len() <= SCROLLBACK_CAP {
        all
    } else {
        decode_utf8(bytes.skip(next_char_boundary(bytes, bytes.len() - SCROLLBACK_KEEP)))
    }
}

proof fn lemma_next_char_boundary(bytes: Seq<u8>, idx: int)
    requires
        valid_utf8(bytes),
        0 <= idx <= bytes.len(),
    ensures
        idx <= next_char_boundary(bytes, idx) <= bytes.len(),
        is_char_boundary(bytes, next_char_boundary(bytes, idx)),
        next_char_boundary(bytes, idx) <= idx + 3,
    decreases bytes.len() - idx,
{
    is_char_boundary_start_end_of_seq(bytes);
    if idx >= bytes.len() || is_char_boundary(bytes, idx) {
    } else {
        lemma_next_char_boundary(bytes, idx + 1);
        // a character is at most four bytes long, so some boundary lies
        // within three bytes of any position
        lemma_boundary_within_three(bytes, idx);
    }
}

proof fn lemma_boundary_within_three(bytes: Seq<u8>, idx: int)
    requires
        valid_utf8(bytes),
        0 <= idx < bytes.len(),
        !is_char_boundary(bytes, idx),
    ensures
        next_char_boundary(bytes, idx) <= idx + 3,
    decreases bytes.len(),
{
    let n = length_of_first_scalar(bytes);
    let rest = pop_first_scalar(bytes);
    if idx < n {
        // inside the first character: its end is a boundary
        assert(n <= 4);
        is_char_boundary_start_end_of_seq(rest);
        assert(is_char_boundary(bytes, n as int)) by {
            assert(is_char_boundary(rest, 0));
        }
        lemma_next_until(bytes, idx, n);
    } else {
        assert(!is_char_boundary(rest, idx - n));
        lemma_boundary_within_three(rest, idx - n);
        lemma_next_shift(bytes, idx);
    }
}

proof fn lemma_next_until(bytes: Seq<u8>, idx: int, b: int)
    requires
        valid_utf8(bytes),
        0 <= idx <= b <= bytes.len(),
        is_char_boundary(bytes, b),
    ensures
        next_char_boundary(bytes, idx) <= b,
    decreases b - idx,
{
    if idx >= bytes.len() || is_char_boundary(bytes, idx) {
    } else {
        lemma_next_until(bytes, idx + 1, b);
    }
}

proof fn lemma_next_shift(bytes: Seq<u8>, idx: int)
    requires
        valid_utf8(bytes),
        bytes.len() > 0,
        length_of_first_scalar(bytes) <= idx <= bytes.len(),
    ensures
        next_char_boundary(bytes, idx) == next_char_boundary(
            pop_first_scalar(bytes),
            idx - length_of_first_scalar(bytes),
        ) + length_of_first_scalar(bytes),
    decreases bytes.len() - idx,
{
    let n = length_of_first_scalar(bytes);
    let rest = pop_first_scalar(bytes);
    if idx >= bytes.len() {
    } else {
        assert(is_char_boundary(bytes, idx) == is_char_boundary(rest, idx - n)) by {
            if idx != 0 {
            }
        }
        if !is_char_boundary(bytes, idx) {
            lemma_next_shift(bytes, idx + 1);
        }
    }
}

/// Appends decoded output to a scrollback buffer and trims it to its last
/// `SCROLLBACK_KEEP` bytes (at a character boundary) once it grows past
/// `SCROLLBACK_CAP` bytes.
pub fn append_scrollback(sb: &mut String, decoded: &str)
    requires
        utf8_len(old(sb)@ + decoded@) <= usize::MAX,
    ensures
        final(sb)@ == appended_scrollback(old(sb)@, decoded@),
{
    push_str(sb, decoded);
    let len = sb.as_str().len();
    proof {
        encode_utf8_valid_utf8(sb@);
    }
    if len > SCROLLBACK_CAP {
        let cut = len - SCROLLBACK_KEEP;
        let mut idx = cut;
        let ghost bytes = encode_utf8(sb@);
        proof {
            is_char_boundary_start_end_of_seq(bytes);
        }
        while idx < len && !sb.as_str().is_char_boundary(idx)
            invariant
                cut <= idx <= len,
                len == bytes.len(),
                bytes == encode_utf8(sb@),
                valid_utf8(bytes),
                next_char_boundary(bytes, cut as int) == next_char_boundary(bytes, idx as int),
            decreases len - idx,
        {
            idx = idx + 1;
        }
        proof {
            is_char_boundary_start_end_of_seq(bytes);
        }
        let (_head, tail) = sb.as_str().split_at(idx);
        let kept = tail.to_owned();
        proof {
            assert(tail.spec_bytes() == bytes.skip(idx as int));
            valid_utf8_split(bytes, idx as int);
            assert(bytes.skip(idx as int) =~= bytes.subrange(idx as int, bytes.len() as int));
            assert(next_char_boundary(bytes, idx as int) == idx);
            decode_utf8_encode_utf8(bytes.skip(idx as int));
            encode_utf8_decode_utf8(tail@);
        }
        *sb = kept;
    }
}

/// Scrollback law: after any append the buffer holds at most
/// `SCROLLBACK_CAP` bytes, it is a suffix of the previous contents followed
/// by the new text, and nothing is dropped while the total still fits; once
/// it is cut, it keeps at most `SCROLLBACK_KEEP` bytes and at most three
/// fewer (the cut moves forward to a character boundary).
pub proof fn lemma_appended_scrollback(old: Seq<char>, text: Seq<char>)
    ensures
        utf8_len(appended_scrollback(old, text)) <= SCROLLBACK_CAP,
        utf8_len(old + text) <= SCROLLBACK_CAP ==> appended_scrollback(old, text) == old + text,
        utf8_len(old + text) > SCROLLBACK_CAP ==> utf8_len(appended_scrollback(old, text))
            <= SCROLLBACK_KEEP,
        utf8_len(old + text) > SCROLLBACK_CAP ==> utf8_len(appended_scrollback(old, text))
            >= SCROLLBACK_KEEP - 3,
        exists|k: int|
            0 <= k <= (old + text).len() && appended_scrollback(old, text) == (old + text).skip(k),
{
    let all = old + text;
    let bytes = encode_utf8(all);
    encode_utf8_valid_utf8(all);
    if bytes.len() <= SCROLLBACK_CAP {
        assert(all == all.skip(0));
    } else {
        let idx = next_char_boundary(bytes, bytes.len() - SCROLLBACK_KEEP);
        lemma_next_char_boundary(bytes, bytes.len() - SCROLLBACK_KEEP);
        valid_utf8_split(bytes, idx);
        decode_utf8_split(bytes, idx);
        decode_utf8_encode_utf8(bytes.skip(idx));
        encode_utf8_decode_utf8(all);
        let head = decode_utf8(bytes.subrange(0, idx));
        let tail = decode_utf8(bytes.skip(idx));
        assert(bytes.skip(idx) =~= bytes.subrange(idx, bytes.len() as int));
        assert(all =~= head + tail);
        assert(tail =~= all.skip(head.len() as int));
    }
}

/// The UTF-8 length of two texts together is the sum of their lengths;
/// every character takes at most four bytes.
pub proof fn lemma_utf8_len_concat(a: Seq<char>, b: Seq<char>)
    ensures
        utf8_len(a + b) == utf8_len(a) + utf8_len(b),
        utf8_len(a) <= 4 * a.len(),
    decreases a.len(),
{
    if a.len() > 0 {
        lemma_utf8_len_concat(a.drop_first(), b);
        assert((a + b).drop_first() =~= a.drop_first() + b);
        assert((a + b)[0] == a[0]);
    }
}

} // verus!
