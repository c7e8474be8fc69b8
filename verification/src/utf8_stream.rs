//! Incremental, lossy UTF-8 decoding of PTY output.
//!
//! Bytes arrive from the shell in arbitrary chunks, so a multi-byte
//! character can be split across two reads. The decoder turns as much of a
//! buffer as possible into text, replaces each ill-formed sequence by
//! U+FFFD (one replacement per maximal ill-formed subpart, as the Unicode
//! standard recommends), and hands back a trailing incomplete sequence so
//! that it can be retried once more bytes have arrived.

use vstd::prelude::*;
use vstd::utf8::*;

use crate::text::push_char;

verus! {

broadcast use vstd::seq_lib::group_seq_properties;

/// How the bytes at the front of a buffer begin.
pub enum Utf8Step {
    /// A well-formed encoding of one scalar value, of the given length.
    Scalar(nat),
    /// An ill-formed sequence; its maximal subpart has the given length.
    Malformed(nat),
    /// The start of a well-formed encoding that the buffer cuts short.
    Truncated,
}

/// Length of the encoding announced by a leading byte, or 0 where the byte
/// can never start a well-formed sequence.
pub open spec fn lead_width(b: u8) -> nat {
    if b <= 0x7f {
        1
    } else if 0xc2 <= b && b <= 0xdf {
        2
    } else if 0xe0 <= b && b <= 0xef {
        3
    } else if 0xf0 <= b && b <= 0xf4 {
        4
    } else {
        0
    }
}

/// Lowest byte accepted right after the leading byte `lead`.
pub open spec fn second_byte_low(lead: u8) -> u8 {
    if lead == 0xe0 {
        0xa0
    } else if lead == 0xf0 {
        0x90
    } else {
        0x80
    }
}

/// Highest byte accepted right after the leading byte `lead`.
pub open spec fn second_byte_high(lead: u8) -> u8 {
    if lead == 0xed {
        0x9f
    } else if lead == 0xf4 {
        0x8f
    } else {
        0xbf
    }
}

/// Whether `b` may stand at position `pos` (1, 2 or 3) of a sequence that
/// starts with `lead` (the table of well-formed byte sequences).
pub open spec fn continuation_in_range(lead: u8, pos: int, b: u8) -> bool {
    if pos == 1 {
        second_byte_low(lead) <= b && b <= second_byte_high(lead)
    } else {
        0x80 <= b && b <= 0xbf
    }
}

/// The first position at or after `k` where the sequence led by
/// `bytes[0]` stops being well formed: it reaches its width `w`, the end
/// of the buffer, or a byte outside the accepted range.
pub open spec fn matched_from(bytes: Seq<u8>, w: nat, k: nat) -> nat
    decreases w - k,
{
    if k >= w || k >= bytes.len() || !continuation_in_range(bytes[0], k as int, bytes[k as int]) {
        k
    } else {
        matched_from(bytes, w, k + 1)
    }
}

/// Classification of the front of a non-empty buffer.
pub open spec fn scan_step(bytes: Seq<u8>) -> Utf8Step {
    let w = lead_width(bytes[0]);
    if w == 0 {
        Utf8Step::Malformed(1)
    } else {
        let m = matched_from(bytes, w, 1);
        if m == w {
            Utf8Step::Scalar(w)
        } else if m == bytes.len() {
            Utf8Step::Truncated
        } else {
            Utf8Step::Malformed(m)
        }
    }
}

/// The character that replaces an ill-formed sequence.
pub open spec fn replacement_char() -> char {
    '\u{FFFD}'
}

/// Lossy decoding of a buffer: the decoded characters, and the trailing
/// incomplete sequence that is kept back for the next read.
pub open spec fn lossy_decode(bytes: Seq<u8>) -> (Seq<char>, Seq<u8>)
    decreases bytes.len(),
{
    if bytes.len() == 0 {
        (Seq::empty(), Seq::empty())
    } else {
        match scan_step(bytes) {
            Utf8Step::Scalar(n) => {
                if 1 <= n && n <= bytes.len() {
                    let rest = lossy_decode(bytes.skip(n as int));
                    (seq![decode_first_codepoint(bytes) as char] + rest.0, rest.1)
                } else {
                    (Seq::empty(), bytes)
                }
            },
            Utf8Step::Malformed(n) => {
                if 1 <= n && n <= bytes.len() {
                    let rest = lossy_decode(bytes.skip(n as int));
                    (seq![replacement_char()] + rest.0, rest.1)
                } else {
                    (Seq::empty(), bytes)
                }
            },
            Utf8Step::Truncated => (Seq::empty(), bytes),
        }
    }
}

/// Lossy decoding of a complete buffer: a trailing incomplete sequence is
/// replaced by one U+FFFD as well.
pub open spec fn lossy_decode_complete(bytes: Seq<u8>) -> Seq<char> {
    let r = lossy_decode(bytes);
    if r.1.len() == 0 {
        r.0
    } else {
        r.0.push(replacement_char())
    }
}

proof fn lemma_matched_from_bounds(bytes: Seq<u8>, w: nat, k: nat)
    ensures
        matched_from(bytes, w, k) >= k,
        k <= w && k <= bytes.len() ==> matched_from(bytes, w, k) <= w && matched_from(bytes, w, k)
            <= bytes.len(),
        forall|j: int|
            k <= j < matched_from(bytes, w, k) ==> continuation_in_range(
                bytes[0],
                j,
                #[trigger] bytes[j],
            ),
    decreases w - k,
{
    if k >= w || k >= bytes.len() || !continuation_in_range(bytes[0], k as int, bytes[k as int]) {
    } else {
        lemma_matched_from_bounds(bytes, w, k + 1);
    }
}

/// The step at the front of a non-empty buffer consumes between one byte
/// and the whole buffer; a truncated sequence is shorter than four bytes.
pub proof fn lemma_scan_step_bounds(bytes: Seq<u8>)
    requires
        bytes.len() > 0,
    ensures
        match scan_step(bytes) {
            Utf8Step::Scalar(n) => 1 <= n <= bytes.len() && n <= 4,
            Utf8Step::Malformed(n) => 1 <= n <= bytes.len() && n <= 3,
            Utf8Step::Truncated => 1 <= bytes.len() <= 3,
        },
{
    let w = lead_width(bytes[0]);
    if w != 0 {
        lemma_matched_from_bounds(bytes, w, 1);
    }
}

proof fn lemma_matched_from_extend(a: Seq<u8>, b: Seq<u8>, w: nat, k: nat)
    requires
        a.len() > 0,
        1 <= k,
        matched_from(a, w, k) < a.len() || matched_from(a, w, k) >= w,
    ensures
        matched_from(a + b, w, k) == matched_from(a, w, k),
    decreases w - k,
{
    let x = a + b;
    assert(x[0] == a[0]);
    if k >= w {
    } else if k >= a.len() {
    } else {
        assert(x[k as int] == a[k as int]);
        if !continuation_in_range(a[0], k as int, a[k as int]) {
        } else {
            lemma_matched_from_extend(a, b, w, k + 1);
        }
    }
}

/// Appending bytes never changes a step that the buffer already decides.
pub proof fn lemma_scan_step_extend(a: Seq<u8>, b: Seq<u8>)
    requires
        a.len() > 0,
        !(scan_step(a) is Truncated),
    ensures
        scan_step(a + b) == scan_step(a),
{
    let x = a + b;
    assert(x[0] == a[0]);
    let w = lead_width(a[0]);
    if w != 0 {
        lemma_matched_from_bounds(a, w, 1);
        lemma_matched_from_extend(a, b, w, 1);
        lemma_matched_from_bounds(x, w, 1);
    }
}

proof fn lemma_width2(b0: u8, b1: u8)
    by (bit_vector)
    requires
        0xc2 <= b0 <= 0xdf,
        0x80 <= b1 <= 0xbf,
    ensures
        0x80 <= codepoint_width_2(b0, b1) <= 0x7ff,
{
}

proof fn lemma_width3(b0: u8, b1: u8, b2: u8)
    by (bit_vector)
    requires
        0xe0 <= b0 <= 0xef,
        0x80 <= b1 <= 0xbf,
        0x80 <= b2 <= 0xbf,
        b0 == 0xe0 ==> b1 >= 0xa0,
        b0 == 0xed ==> b1 <= 0x9f,
    ensures
        0x800 <= codepoint_width_3(b0, b1, b2) <= 0xffff,
        !(0xd800 <= codepoint_width_3(b0, b1, b2) <= 0xdfff),
{
}

proof fn lemma_width4(b0: u8, b1: u8, b2: u8, b3: u8)
    by (bit_vector)
    requires
        0xf0 <= b0 <= 0xf4,
        0x80 <= b1 <= 0xbf,
        0x80 <= b2 <= 0xbf,
        0x80 <= b3 <= 0xbf,
        b0 == 0xf0 ==> b1 >= 0x90,
        b0 == 0xf4 ==> b1 <= 0x8f,
    ensures
        0x10000 <= codepoint_width_4(b0, b1, b2, b3) <= 0x10ffff,
{
}

/// A step classified as one scalar is exactly a well-formed encoding of a
/// Unicode scalar value in the sense of `vstd::utf8`.
pub proof fn lemma_scalar_step_valid(bytes: Seq<u8>)
    requires
        bytes.len() > 0,
        scan_step(bytes) is Scalar,
    ensures
        valid_first_scalar(bytes),
        length_of_first_scalar(bytes) == scan_step(bytes)->Scalar_0,
        is_scalar(decode_first_codepoint(bytes)),
{
    let w = lead_width(bytes[0]);
    lemma_matched_from_bounds(bytes, w, 1);
    let b0 = bytes[0];
    if w == 1 {
        assert(codepoint_width_1(b0) <= 0x7f) by (bit_vector)
            requires
                b0 <= 0x7f,
        ;
    } else if w == 2 {
        assert(continuation_in_range(b0, 1, bytes[1]));
        lemma_width2(b0, bytes[1]);
    } else if w == 3 {
        assert(continuation_in_range(b0, 1, bytes[1]));
        assert(continuation_in_range(b0, 2, bytes[2]));
        lemma_width3(b0, bytes[1], bytes[2]);
    } else {
        assert(continuation_in_range(b0, 1, bytes[1]));
        assert(continuation_in_range(b0, 2, bytes[2]));
        assert(continuation_in_range(b0, 3, bytes[3]));
        lemma_width4(b0, bytes[1], bytes[2], bytes[3]);
    }
}

proof fn lemma_valid_width2(b0: u8, b1: u8)
    by (bit_vector)
    requires
        0xc0 <= b0 <= 0xdf,
        0x80 <= b1 <= 0xbf,
        0x80 <= codepoint_width_2(b0, b1),
    ensures
        0xc2 <= b0,
{
}

proof fn lemma_valid_width3(b0: u8, b1: u8, b2: u8)
    by (bit_vector)
    requires
        0xe0 <= b0 <= 0xef,
        0x80 <= b1 <= 0xbf,
        0x80 <= b2 <= 0xbf,
        0x800 <= codepoint_width_3(b0, b1, b2),
        !(0xd800 <= codepoint_width_3(b0, b1, b2) <= 0xdfff),
    ensures
        b0 == 0xe0 ==> b1 >= 0xa0,
        b0 == 0xed ==> b1 <= 0x9f,
{
}

proof fn lemma_valid_width4(b0: u8, b1: u8, b2: u8, b3: u8)
    by (bit_vector)
    requires
        0xf0 <= b0 <= 0xf7,
        0x80 <= b1 <= 0xbf,
        0x80 <= b2 <= 0xbf,
        0x80 <= b3 <= 0xbf,
        0x10000 <= codepoint_width_4(b0, b1, b2, b3) <= 0x10ffff,
    ensures
        b0 <= 0xf4,
        b0 == 0xf0 ==> b1 >= 0x90,
        b0 == 0xf4 ==> b1 <= 0x8f,
{
}

/// Conversely, a well-formed encoding of one scalar value (in the sense of
/// `vstd::utf8`) is classified as one scalar of the same length.
pub proof fn lemma_valid_first_scalar_step(bytes: Seq<u8>)
    requires
        valid_first_scalar(bytes),
    ensures
        scan_step(bytes) == Utf8Step::Scalar(length_of_first_scalar(bytes) as nat),
{
    reveal_with_fuel(matched_from, 5);
    let b0 = bytes[0];
    if is_leading_byte_width_1(b0) {
    } else if is_leading_byte_width_2(b0) {
        lemma_valid_width2(b0, bytes[1]);
    } else if is_leading_byte_width_3(b0) {
        lemma_valid_width3(b0, bytes[1], bytes[2]);
    } else {
        lemma_valid_width4(b0, bytes[1], bytes[2], bytes[3]);
    }
}

/// What a scan of the bytes at some position of a buffer found.
pub enum Scan {
    Scalar(usize),
    Malformed(usize),
    Truncated,
}

impl Scan {
    pub open spec fn matches_step(self, step: Utf8Step) -> bool {
        match step {
            Utf8Step::Scalar(n) => self == Scan::Scalar(n as usize),
            Utf8Step::Malformed(n) => self == Scan::Malformed(n as usize),
            Utf8Step::Truncated => self == Scan::Truncated,
        }
    }
}

fn in_range(lead: u8, pos: usize, b: u8) -> (res: bool)
    ensures
        res == continuation_in_range(lead, pos as int, b),
{
    if pos == 1 {
        let low: u8 = if lead == 0xe0 {
            0xa0
        } else if lead == 0xf0 {
            0x90
        } else {
            0x80
        };
        let high: u8 = if lead == 0xed {
            0x9f
        } else if lead == 0xf4 {
            0x8f
        } else {
            0xbf
        };
        low <= b && b <= high
    } else {
        0x80 <= b && b <= 0xbf
    }
}

/// Classifies the bytes of `buf` that start at position `i`.
pub fn scan_at(buf: &[u8], i: usize) -> (res: Scan)
    requires
        i < buf.len(),
    ensures
        res.matches_step(scan_step(buf@.skip(i as int))),
{
    let ghost s = buf@.skip(i as int);
    let b0 = buf[i];
    let w: usize = if b0 <= 0x7f {
        1
    } else if 0xc2 <= b0 && b0 <= 0xdf {
        2
    } else if 0xe0 <= b0 && b0 <= 0xef {
        3
    } else if 0xf0 <= b0 && b0 <= 0xf4 {
        4
    } else {
        0
    };
    assert(w == lead_width(s[0]));
    if w == 0 {
        return Scan::Malformed(1);
    }
    let mut k: usize = 1;
    loop
        invariant
            1 <= k <= w,
            w <= 4,
            i < buf.len(),
            s == buf@.skip(i as int),
            b0 == s[0],
            w == lead_width(s[0]),
            i + k <= buf.len(),
            matched_from(s, w as nat, k as nat) == matched_from(s, w as nat, 1),
        ensures
            matched_from(s, w as nat, 1) == k,
            1 <= k <= w,
            i + k <= buf.len(),
        decreases w - k,
    {
        if k >= w || i + k >= buf.len() {
            break;
        }
        if !in_range(b0, k, buf[i + k]) {
            break;
        }
        k = k + 1;
    }
    if k == w {
        Scan::Scalar(w)
    } else if i + k == buf.len() {
        Scan::Truncated
    } else {
        Scan::Malformed(k)
    }
}

/// The scalar value encoded by the well-formed sequence at position `i`.
fn codepoint_at(buf: &[u8], i: usize, w: usize) -> (res: u32)
    requires
        i < buf.len(),
        scan_step(buf@.skip(i as int)) == Utf8Step::Scalar(w as nat),
    ensures
        res == decode_first_codepoint(buf@.skip(i as int)),
{
    let ghost s = buf@.skip(i as int);
    proof {
        lemma_scan_step_bounds(s);
    }
    let b0 = buf[i];
    if w == 1 {
        (b0 & 0x7f) as u32
    } else if w == 2 {
        let b1 = buf[i + 1];
        (((b0 & 0x1f) as u32) << 6) | ((b1 & 0x3f) as u32)
    } else if w == 3 {
        let b1 = buf[i + 1];
        let b2 = buf[i + 2];
        (((b0 & 0x0f) as u32) << 12) | (((b1 & 0x3f) as u32) << 6) | ((b2 & 0x3f) as u32)
    } else {
        let b1 = buf[i + 1];
        let b2 = buf[i + 2];
        let b3 = buf[i + 3];
        (((b0 & 0x07) as u32) << 18) | (((b1 & 0x3f) as u32) << 12) | (((b2 & 0x3f) as u32) << 6)
            | ((b3 & 0x3f) as u32)
    }
}

/// The character with the given scalar value (`char::from_u32`), which by
/// its documentation is `None` exactly when the value is not a Unicode
/// scalar value, and otherwise the character of that value.
#[verifier::external_body]
fn char_from_scalar(v: u32) -> (res: Option<char>)
    ensures
        res is Some <==> is_scalar(v),
        res matches Some(c) ==> c as u32 == v,
{
    char::from_u32(v)
}

/// Decodes as much UTF-8 as possible from `buf`. Returns the decoded string
/// and any trailing incomplete byte sequence to retry on the next read.
/// Each ill-formed sequence becomes one U+FFFD.
pub fn decode_utf8_lossy_streaming(buf: &[u8]) -> (res: (String, Vec<u8>))
    ensures
        res.0@ == lossy_decode(buf@).0,
        res.1@ == lossy_decode(buf@).1,
{
    let mut out = String::new();
    let mut i: usize = 0;
    while i < buf.len()
        invariant
            i <= buf.len(),
            lossy_decode(buf@).0 == out@ + lossy_decode(buf@.skip(i as int)).0,
            lossy_decode(buf@).1 == lossy_decode(buf@.skip(i as int)).1,
        decreases buf.len() - i,
    {
        let ghost s = buf@.skip(i as int);
        proof {
            lemma_scan_step_bounds(s);
        }
        match scan_at(buf, i) {
            Scan::Scalar(n) => {
                let cp = codepoint_at(buf, i, n);
                proof {
                    lemma_scalar_step_valid(s);
                }
                match char_from_scalar(cp) {
                    Some(c) => {
                        proof {
                            char_u32_cast(c, cp);
                            assert(s.skip(n as int) =~= buf@.skip(i + n));
                            assert(out@.push(c) + lossy_decode(s.skip(n as int)).0 =~= out@ + (
                            seq![c] + lossy_decode(s.skip(n as int)).0));
                        }
                        push_char(&mut out, c);
                        i = i + n;
                    },
                    None => {
                        proof {
                            assert(false);
                        }
                    },
                }
            },
            Scan::Malformed(n) => {
                proof {
                    assert(s.skip(n as int) =~= buf@.skip(i + n));
                    assert(out@.push('\u{FFFD}') + lossy_decode(s.skip(n as int)).0 =~= out@ + (
                    seq![replacement_char()] + lossy_decode(s.skip(n as int)).0));
                }
                push_char(&mut out, '\u{FFFD}');
                i = i + n;
            },
            Scan::Truncated => {
                let rest = copy_tail(buf, i);
                proof {
                    assert(out@ + Seq::<char>::empty() =~= out@);
                }
                return (out, rest);
            },
        }
    }
    proof {
        assert(buf@.skip(i as int).len() == 0);
        assert(out@ + Seq::<char>::empty() =~= out@);
    }
    (out, Vec::new())
}

fn copy_tail(buf: &[u8], i: usize) -> (res: Vec<u8>)
    requires
        i <= buf.len(),
    ensures
        res@ == buf@.skip(i as int),
{
    let mut v: Vec<u8> = Vec::new();
    let mut j: usize = i;
    while j < buf.len()
        invariant
            i <= j <= buf.len(),
            v@ == buf@.subrange(i as int, j as int),
        decreases buf.len() - j,
    {
        v.push(buf[j]);
        proof {
            assert(buf@.subrange(i as int, j as int).push(buf@[j as int]) =~= buf@.subrange(
                i as int,
                j + 1,
            ));
        }
        j = j + 1;
    }
    v
}

} // verus!
verus! {

/// Streaming law: decoding a buffer in two pieces, where the incomplete
/// tail held back after the first piece is put in front of the second,
/// gives the same text and the same held-back tail as decoding the whole
/// buffer at once.
pub proof fn lemma_lossy_decode_append(a: Seq<u8>, b: Seq<u8>)
    ensures
        lossy_decode(a + b).0 == lossy_decode(a).0 + lossy_decode(lossy_decode(a).1 + b).0,
        lossy_decode(a + b).1 == lossy_decode(lossy_decode(a).1 + b).1,
    decreases a.len(),
{
    if a.len() == 0 {
        assert(a + b =~= b);
        assert(lossy_decode(a).1 + b =~= b);
        assert(Seq::<char>::empty() + lossy_decode(b).0 =~= lossy_decode(b).0);
    } else {
        lemma_scan_step_bounds(a);
        match scan_step(a) {
            Utf8Step::Truncated => {
                assert(Seq::<char>::empty() + lossy_decode(a + b).0 =~= lossy_decode(a + b).0);
            },
            Utf8Step::Scalar(n) => {
                lemma_scan_step_extend(a, b);
                assert((a + b).skip(n as int) =~= a.skip(n as int) + b);
                lemma_lossy_decode_append(a.skip(n as int), b);
                assert(decode_first_codepoint(a + b) == decode_first_codepoint(a)) by {
                    lemma_scalar_step_valid(a);
                    let x = a + b;
                    assert(x[0] == a[0]);
                    assert(n >= 2 ==> x[1] == a[1]);
                    assert(n >= 3 ==> x[2] == a[2]);
                    assert(n >= 4 ==> x[3] == a[3]);
                }
                let c = decode_first_codepoint(a) as char;
                let r = lossy_decode(a.skip(n as int));
                assert(seq![c] + (r.0 + lossy_decode(r.1 + b).0) =~= (seq![c] + r.0) + lossy_decode(
                    r.1 + b,
                ).0);
            },
            Utf8Step::Malformed(n) => {
                lemma_scan_step_extend(a, b);
                assert((a + b).skip(n as int) =~= a.skip(n as int) + b);
                lemma_lossy_decode_append(a.skip(n as int), b);
                let r = lossy_decode(a.skip(n as int));
                assert(seq![replacement_char()] + (r.0 + lossy_decode(r.1 + b).0) =~= (seq![
                    replacement_char(),
                ] + r.0) + lossy_decode(r.1 + b).0);
            },
        }
    }
}

/// The bytes held back are a suffix of the buffer, shorter than four bytes,
/// and form an incomplete sequence that decodes to nothing by itself.
pub proof fn lemma_lossy_decode_tail(bytes: Seq<u8>)
    ensures
        lossy_decode(bytes).1.len() <= 3,
        lossy_decode(bytes).1.len() <= bytes.len(),
        lossy_decode(bytes).1 == bytes.skip(bytes.len() - lossy_decode(bytes).1.len()),
        lossy_decode(lossy_decode(bytes).1) == (Seq::<char>::empty(), lossy_decode(bytes).1),
    decreases bytes.len(),
{
    if bytes.len() > 0 {
        lemma_scan_step_bounds(bytes);
        match scan_step(bytes) {
            Utf8Step::Truncated => {
                assert(bytes.skip(0) =~= bytes);
            },
            Utf8Step::Scalar(n) => {
                lemma_lossy_decode_tail(bytes.skip(n as int));
                let t = lossy_decode(bytes.skip(n as int)).1;
                assert(bytes.skip(n as int).skip(bytes.skip(n as int).len() - t.len()) =~= bytes.skip(
                    bytes.len() - t.len(),
                ));
            },
            Utf8Step::Malformed(n) => {
                lemma_lossy_decode_tail(bytes.skip(n as int));
                let t = lossy_decode(bytes.skip(n as int)).1;
                assert(bytes.skip(n as int).skip(bytes.skip(n as int).len() - t.len()) =~= bytes.skip(
                    bytes.len() - t.len(),
                ));
            },
        }
    }
}

/// Well-formed UTF-8 decodes exactly, with nothing held back.
pub proof fn lemma_valid_utf8_decodes_exactly(bytes: Seq<u8>)
    requires
        valid_utf8(bytes),
    ensures
        lossy_decode(bytes) == (decode_utf8(bytes), Seq::<u8>::empty()),
    decreases bytes.len(),
{
    if bytes.len() > 0 {
        lemma_valid_first_scalar_step(bytes);
        let n = length_of_first_scalar(bytes);
        assert(pop_first_scalar(bytes) =~= bytes.skip(n));
        lemma_valid_utf8_decodes_exactly(bytes.skip(n));
    }
}

/// Encoding text as UTF-8 and decoding it again gives the text back.
pub proof fn lemma_encode_then_decode(text: Seq<char>)
    ensures
        lossy_decode(encode_utf8(text)) == (text, Seq::<u8>::empty()),
{
    encode_utf8_valid_utf8(text);
    encode_utf8_decode_utf8(text);
    lemma_valid_utf8_decodes_exactly(encode_utf8(text));
}

/// Decoder state for one PTY output stream: the incomplete sequence held
/// back from the previous read.
pub struct StreamDecoder {
    leftover: Vec<u8>,
}

impl StreamDecoder {
    /// The bytes held back for the next read.
    pub closed spec fn pending(&self) -> Seq<u8> {
        self.leftover@
    }

    /// The held-back bytes decode to nothing on their own.
    pub closed spec fn wf(&self) -> bool {
        lossy_decode(self.leftover@) == (Seq::<char>::empty(), self.leftover@)
    }

    pub fn new() -> (res: Self)
        ensures
            res.wf(),
            res.pending() == Seq::<u8>::empty(),
    {
        StreamDecoder { leftover: Vec::new() }
    }

    /// Decodes the next chunk read from the PTY, together with the bytes
    /// held back from before; keeps the new incomplete tail.
    pub fn feed(&mut self, chunk: &[u8]) -> (res: String)
        requires
            old(self).wf(),
            old(self).pending().len() + chunk@.len() <= usize::MAX,
        ensures
            final(self).wf(),
            res@ == lossy_decode(old(self).pending() + chunk@).0,
            final(self).pending() == lossy_decode(old(self).pending() + chunk@).1,
            final(self).pending().len() <= 3,
    {
        let mut buf: Vec<u8> = Vec::new();
        buf.append(&mut self.leftover);
        let mut j: usize = 0;
        while j < chunk.len()
            invariant
                j <= chunk.len(),
                buf@ == old(self).leftover@ + chunk@.take(j as int),
            decreases chunk.len() - j,
        {
            buf.push(chunk[j]);
            proof {
                assert(old(self).leftover@ + chunk@.take(j as int) + seq![chunk@[j as int]]
                    =~= old(self).leftover@ + chunk@.take(j + 1));
            }
            j = j + 1;
        }
        proof {
            assert(chunk@.take(chunk@.len() as int) =~= chunk@);
        }
        let (text, rest) = decode_utf8_lossy_streaming(buf.as_slice());
        proof {
            lemma_lossy_decode_tail(buf@);
        }
        self.leftover = rest;
        text
    }
}

/// Whole-stream law: if everything read so far decodes to `emitted` with
/// `pending` held back, then after one more chunk the whole stream decodes
/// to `emitted` followed by what the decoder returns for that chunk.
pub proof fn lemma_stream_decoding(seen: Seq<u8>, chunk: Seq<u8>)
    ensures
        lossy_decode(seen + chunk).0 == lossy_decode(seen).0 + lossy_decode(
            lossy_decode(seen).1 + chunk,
        ).0,
        lossy_decode(seen + chunk).1 == lossy_decode(lossy_decode(seen).1 + chunk).1,
{
    lemma_lossy_decode_append(seen, chunk);
}

/// Lossy decoding of a complete buffer (`String::from_utf8_lossy`): like the
/// streaming decoder, with a trailing incomplete sequence replaced by one
/// U+FFFD.
pub fn utf8_lossy(bytes: &[u8]) -> (res: String)
    ensures
        res@ == lossy_decode_complete(bytes@),
{
    let (mut text, rest) = decode_utf8_lossy_streaming(bytes);
    if rest.len() > 0 {
        push_char(&mut text, '\u{FFFD}');
    }
    text
}

} // verus!
