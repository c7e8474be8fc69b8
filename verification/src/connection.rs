//! The client's WebSocket connection: the URL it opens, and what it does
//! when the socket closes.

use vstd::prelude::*;
use vstd::utf8::*;
use vstd::string::StringSliceAdditionalSpecFns;

use crate::protocol::SESSION_BUSY_CODE;
use crate::text::{decimal, push_char, push_decimal, push_str, str_eq};

verus! {

broadcast use vstd::seq_lib::group_seq_properties;

/// Bytes that `encodeURIComponent` leaves as they are: ASCII letters and
/// digits and `- _ . ! ~ * ' ( )`.
pub open spec fn uri_unreserved(b: u8) -> bool {
    ||| (0x41 <= b && b <= 0x5a)
    ||| (0x61 <= b && b <= 0x7a)
    ||| (0x30 <= b && b <= 0x39)
    ||| b == 0x2d || b == 0x5f || b == 0x2e || b == 0x21 || b == 0x7e || b == 0x2a || b == 0x27
        || b == 0x28 || b == 0x29
}

/// Upper-case hexadecimal digit for `d` (0 to 15).
pub open spec fn hex_digit(d: u8) -> char {
    if d < 10 {
        (0x30 + d) as char
    } else {
        (0x41 + d - 10) as char
    }
}

/// Percent-encoding of UTF-8 bytes: unreserved bytes stay, every other
/// byte becomes `%XX`.
pub open spec fn percent_encode(bytes: Seq<u8>) -> Seq<char>
    decreases bytes.len(),
{
    if bytes.len() == 0 {
        Seq::empty()
    } else {
        let b = bytes[0];
        (if uri_unreserved(b) {
            seq![b as char]
        } else {
            seq!['%', hex_digit(b / 16), hex_digit(b % 16)]
        }) + percent_encode(bytes.drop_first())
    }
}

/// `encodeURIComponent`: the text's UTF-8 bytes, percent-encoded.
pub open spec fn uri_component(text: Seq<char>) -> Seq<char> {
    percent_encode(encode_utf8(text))
}

fn hex(d: u8) -> (res: char)
    requires
        d < 16,
    ensures
        res == hex_digit(d),
{
    if d < 10 {
        (0x30 + d) as char
    } else {
        (0x41 + d - 10) as char
    }
}

proof fn lemma_percent_encode_push(bytes: Seq<u8>, b: u8)
    ensures
        percent_encode(bytes.push(b)) == percent_encode(bytes) + (if uri_unreserved(b) {
            seq![b as char]
        } else {
            seq!['%', hex_digit(b / 16), hex_digit(b % 16)]
        }),
    decreases bytes.len(),
{
    if bytes.len() == 0 {
        assert(bytes.push(b).drop_first() =~= Seq::<u8>::empty());
        assert(percent_encode(Seq::<u8>::empty()) == Seq::<char>::empty());
    } else {
        assert(bytes.push(b).drop_first() =~= bytes.drop_first().push(b));
        lemma_percent_encode_push(bytes.drop_first(), b);
    }
}

/// Appends `encodeURIComponent(text)` to `out`.
pub fn push_uri_component(out: &mut String, text: &str)
    ensures
        final(out)@ == old(out)@ + uri_component(text@),
{
    let bytes = text.as_bytes();
    let mut i: usize = 0;
    while i < bytes.len()
        invariant
            bytes@ == encode_utf8(text@),
            i <= bytes@.len(),
            out@ == old(out)@ + percent_encode(bytes@.take(i as int)),
        decreases bytes.len() - i,
    {
        let b = bytes[i];
        proof {
            assert(bytes@.take(i + 1) =~= bytes@.take(i as int).push(b));
            lemma_percent_encode_push(bytes@.take(i as int), b);
        }
        let unreserved = (0x41 <= b && b <= 0x5a) || (0x61 <= b && b <= 0x7a) || (0x30 <= b && b
            <= 0x39) || b == 0x2d || b == 0x5f || b == 0x2e || b == 0x21 || b == 0x7e || b == 0x2a
            || b == 0x27 || b == 0x28 || b == 0x29;
        if unreserved {
            push_char(out, b as char);
        } else {
            push_char(out, '%');
            push_char(out, hex(b / 16));
            push_char(out, hex(b % 16));
        }
        i = i + 1;
    }
    proof {
        assert(bytes@.take(bytes@.len() as int) =~= bytes@);
    }
}

/// Percent-encoding law, byte by byte: the encoding of a text is the
/// encodings of its bytes one after the other.
pub proof fn lemma_percent_encode_concat(x: Seq<u8>, y: Seq<u8>)
    ensures
        percent_encode(x + y) == percent_encode(x) + percent_encode(y),
    decreases x.len(),
{
    if x.len() == 0 {
        assert(x + y =~= y);
        assert(percent_encode(x) + percent_encode(y) =~= percent_encode(y));
    } else {
        assert((x + y).drop_first() =~= x.drop_first() + y);
        assert((x + y)[0] == x[0]);
        lemma_percent_encode_concat(x.drop_first(), y);
    }
}

/// Percent-encoding law for one byte: it stays as it is exactly when it is
/// an ASCII letter or digit or one of `- _ . ! ~ * ' ( )`; every other byte
/// becomes `%` and its two upper-case hexadecimal digits.
pub proof fn lemma_percent_encode_byte(b: u8)
    ensures
        percent_encode(seq![b]) == if ('A' <= b as char <= 'Z') || ('a' <= b as char <= 'z') || (
        '0' <= b as char <= '9') || b as char == '-' || b as char == '_' || b as char == '.'
            || b as char == '!' || b as char == '~' || b as char == '*' || b as char == '\''
            || b as char == '(' || b as char == ')' {
            seq![b as char]
        } else {
            seq!['%', "0123456789ABCDEF"@[(b / 16) as int], "0123456789ABCDEF"@[(b % 16) as int]]
        },
{
    reveal_strlit("0123456789ABCDEF");
    assert(seq![b].drop_first() =~= Seq::<u8>::empty());
    assert(percent_encode(Seq::<u8>::empty()) == Seq::<char>::empty());
    let hi = b / 16;
    let lo = b % 16;
    assert(hex_digit(hi) == "0123456789ABCDEF"@[hi as int]);
    assert(hex_digit(lo) == "0123456789ABCDEF"@[lo as int]);
}

/// `encodeURIComponent(text)`.
pub fn urlencode(text: &str) -> (res: String)
    ensures
        res@ == uri_component(text@),
{
    let mut s = String::new();
    push_uri_component(&mut s, text);
    proof {
        assert(Seq::<char>::empty() + uri_component(text@) =~= uri_component(text@));
    }
    s
}

/// The URL of the session's WebSocket: `wss:` when the page is served over
/// `https:`, else `ws:`; the session id is URI-encoded; `&take=1` asks to
/// take the session over from another tab.
pub open spec fn websocket_url_text(
    protocol: Seq<char>,
    host: Seq<char>,
    session_id: Seq<char>,
    cols: u16,
    rows: u16,
    take: bool,
) -> Seq<char> {
    (if protocol == "https:"@ { "wss:"@ } else { "ws:"@ }) + "//"@ + host + "/ws?sessionId="@
        + uri_component(session_id) + "&cols="@ + decimal(cols as nat) + "&rows="@ + decimal(
        rows as nat,
    ) + (if take { "&take=1"@ } else { Seq::empty() })
}

/// Builds the URL of the session's WebSocket.
pub fn websocket_url(
    protocol: &str,
    host: &str,
    session_id: &str,
    cols: u16,
    rows: u16,
    take: bool,
) -> (res: String)
    ensures
        res@ == websocket_url_text(protocol@, host@, session_id@, cols, rows, take),
{
    let mut url = if str_eq(protocol, "https:") {
        "wss:".to_owned()
    } else {
        "ws:".to_owned()
    };
    let ghost scheme = url@;
    push_str(&mut url, "//");
    push_str(&mut url, host);
    push_str(&mut url, "/ws?sessionId=");
    push_uri_component(&mut url, session_id);
    push_str(&mut url, "&cols=");
    push_decimal(&mut url, cols as u64);
    push_str(&mut url, "&rows=");
    push_decimal(&mut url, rows as u64);
    if take {
        push_str(&mut url, "&take=1");
    }
    proof {
        assert(url@ =~= websocket_url_text(protocol@, host@, session_id@, cols, rows, take));
    }
    url
}

/// Seconds before an automatic reconnect.
pub const RECONNECT_DELAY_SECS: u32 = 2;

/// What the client does when its WebSocket closes.
pub enum CloseOutcome {
    /// Another tab holds the session: offer to take it over.
    Busy,
    /// Count down, then reconnect.
    Reconnect { remaining: u32 },
}

/// Decides what follows a close with the given code.
pub fn on_close(code: u16) -> (res: CloseOutcome)
    ensures
        code == SESSION_BUSY_CODE ==> res is Busy,
        code != SESSION_BUSY_CODE ==> res == (CloseOutcome::Reconnect { remaining: RECONNECT_DELAY_SECS }),
{
    if code == SESSION_BUSY_CODE {
        CloseOutcome::Busy
    } else {
        CloseOutcome::Reconnect { remaining: RECONNECT_DELAY_SECS }
    }
}

/// One second of the reconnect countdown.
pub enum Tick {
    /// Time is up: connect now.
    Connect,
    /// Keep counting; this many seconds remain.
    Countdown { remaining: u32 },
}

/// Advances the reconnect countdown by one second.
pub fn reconnect_tick(remaining: u32) -> (res: Tick)
    ensures
        remaining <= 1 ==> res is Connect,
        remaining > 1 ==> res == (Tick::Countdown { remaining: (remaining - 1) as u32 }),
{
    if remaining <= 1 {
        Tick::Connect
    } else {
        Tick::Countdown { remaining: remaining - 1 }
    }
}

/// Characters that `encodeURIComponent` can produce: `%` and the
/// unreserved ASCII characters (which include the hexadecimal digits).
pub open spec fn uri_safe_char(c: char) -> bool {
    c == '%' || uri_unreserved(c as u8) && (c as u32) < 0x80
}

proof fn lemma_hex_digit_safe(d: u8)
    requires
        d < 16,
    ensures
        uri_safe_char(hex_digit(d)),
{
    let c = hex_digit(d);
    assert((c as u32) < 0x80);
    assert(uri_unreserved(c as u8));
}

/// Encoding law: the encoded text consists only of characters that may
/// stand in a URL query unescaped, so a session id can never break out of
/// its parameter.
pub proof fn lemma_percent_encode_safe(bytes: Seq<u8>)
    ensures
        forall|i: int| 0 <= i < percent_encode(bytes).len() ==> uri_safe_char(#[trigger] percent_encode(bytes)[i]),
    decreases bytes.len(),
{
    if bytes.len() > 0 {
        let b = bytes[0];
        lemma_percent_encode_safe(bytes.drop_first());
        let head = if uri_unreserved(b) {
            seq![b as char]
        } else {
            seq!['%', hex_digit(b / 16), hex_digit(b % 16)]
        };
        lemma_hex_digit_safe(b / 16);
        lemma_hex_digit_safe(b % 16);
        assert(uri_unreserved(b) ==> (b as char) as u8 == b && ((b as char) as u32) < 0x80);
        let rest = percent_encode(bytes.drop_first());
        assert forall|i: int| 0 <= i < (head + rest).len() implies uri_safe_char(#[trigger] (head + rest)[i]) by {
            if i >= head.len() {
                assert((head + rest)[i] == rest[i - head.len()]);
            }
        }
    }
}

/// Consumes the one-shot "take over" flag that another tab stored for
/// this one: it is set when the stored value is exactly `1`, and then it is
/// cleared, so it is consumed once; any other value is left in place.
pub fn consume_take_flag(stored: &mut Option<String>) -> (res: bool)
    ensures
        res == ((*old(stored)) matches Some(v) && v@ == seq!['1']),
        res ==> (*final(stored)) is None,
        !res ==> *final(stored) == *old(stored),
{
    let taken = match stored {
        Some(v) => crate::protocol::take_requested(Some(v.as_str())),
        None => false,
    };
    if taken {
        *stored = None;
    }
    taken
}

} // verus!
