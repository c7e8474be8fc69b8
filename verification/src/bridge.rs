//! Terminal escape sequences that the browser side sends to the PTY (mouse
//! reports, bracketed paste, focus events) and the small decisions around
//! them (window title, bell).

use vstd::prelude::*;

use crate::text::{
    chars_of, push_char, push_signed_decimal, push_str, signed_decimal,
    str_eq,
};

verus! {

/// The SGR (1006) button code of a mouse event: the button (0 left,
/// 1 middle, 2 right, 3 anything else) plus 4 for Shift, 8 for Alt and
/// 16 for Ctrl.
pub open spec fn button_code(button: i16, shift: bool, alt: bool, ctrl: bool) -> int {
    (if button == 0 {
        0int
    } else if button == 1 {
        1int
    } else if button == 2 {
        2int
    } else {
        3int
    }) + (if shift { 4int } else { 0int }) + (if alt { 8int } else { 0int }) + (if ctrl { 16int } else { 0int })
}

/// Computes the SGR button code of a mouse event.
pub fn button_bits(button: i16, shift: bool, alt: bool, ctrl: bool) -> (res: i32)
    ensures
        res == button_code(button, shift, alt, ctrl),
        0 <= res < 32,
{
    let mut b: i32 = if button == 0 {
        0
    } else if button == 1 {
        1
    } else if button == 2 {
        2
    } else {
        3
    };
    if shift {
        b = b + 4;
    }
    if alt {
        b = b + 8;
    }
    if ctrl {
        b = b + 16;
    }
    b
}

/// The kind of a mouse event reported to the PTY.
pub enum MouseKind {
    /// A button went down.
    Press,
    /// A button went up.
    Release,
    /// The pointer moved while a button was held.
    Drag,
    /// The wheel turned, down (away from the user) or up.
    Wheel { down: bool },
}

/// The SGR report `ESC [ < code ; x ; y M|m`.
pub open spec fn sgr_report(code: int, x: int, y: int, kind: char) -> Seq<char> {
    seq!['\u{1b}', '[', '<'] + signed_decimal(code) + seq![';'] + signed_decimal(x) + seq![';']
        + signed_decimal(y) + seq![kind]
}

/// The report for a mouse event at cell (`x`, `y`) (1-based): presses and
/// drags end in `M`, releases in `m`; a drag adds 32 to the button code;
/// the wheel reports code 64 (up) or 65 (down).
pub open spec fn mouse_report_text(kind: MouseKind, code: int, x: int, y: int) -> Seq<char> {
    match kind {
        MouseKind::Press => sgr_report(code, x, y, 'M'),
        MouseKind::Release => sgr_report(code, x, y, 'm'),
        MouseKind::Drag => sgr_report(code + 32, x, y, 'M'),
        MouseKind::Wheel { down } => sgr_report(if down { 65 } else { 64 }, x, y, 'M'),
    }
}

/// Encodes a mouse event for a program that tracks the mouse; `code` is the
/// button code of the event (`button_bits`).
pub fn mouse_report(kind: MouseKind, code: i32, x: i32, y: i32) -> (res: String)
    requires
        0 <= code < 32,
    ensures
        res@ == mouse_report_text(kind, code as int, x as int, y as int),
{
    let (c, k) = match kind {
        MouseKind::Press => (code, 'M'),
        MouseKind::Release => (code, 'm'),
        MouseKind::Drag => (code + 32, 'M'),
        MouseKind::Wheel { down } => (if down { 65 } else { 64 }, 'M'),
    };
    let mut s = String::new();
    push_char(&mut s, '\u{1b}');
    push_char(&mut s, '[');
    push_char(&mut s, '<');
    push_signed_decimal(&mut s, c as i64);
    push_char(&mut s, ';');
    push_signed_decimal(&mut s, x as i64);
    push_char(&mut s, ';');
    push_signed_decimal(&mut s, y as i64);
    push_char(&mut s, k);
    proof {
        assert(s@ =~= sgr_report(c as int, x as int, y as int, k));
    }
    s
}

/// Button-code law: the code of a mouse event holds the button in its low
/// two bits (the DOM button number for the left, middle and right buttons,
/// 3 for any other) and one bit for each modifier: 4 for Shift, 8 for Alt,
/// 16 for Ctrl; nothing else.
pub proof fn lemma_button_code_fields(button: i16, shift: bool, alt: bool, ctrl: bool)
    ensures
        0 <= button_code(button, shift, alt, ctrl) < 32,
        button_code(button, shift, alt, ctrl) % 4 == (if 0 <= button <= 2 {
            button as int
        } else {
            3
        }),
        (button_code(button, shift, alt, ctrl) / 4) % 2 == (if shift { 1int } else { 0int }),
        (button_code(button, shift, alt, ctrl) / 8) % 2 == (if alt { 1int } else { 0int }),
        button_code(button, shift, alt, ctrl) / 16 == (if ctrl { 1int } else { 0int }),
{
}

/// Mouse-report law: a press is reported as `ESC [ <` code `;` x `;` y `M`;
/// a release is the same report ending in `m`; a drag is reported as a
/// press whose code has the motion bit (32) set on top of the event's
/// full button code; the wheel as a press of code 64 (up) or 65 (down).
pub proof fn lemma_mouse_report_layout(code: u8, x: int, y: int, down: bool)
    requires
        code < 32,
    ensures
        mouse_report_text(MouseKind::Press, code as int, x, y) == seq!['\u{1b}', '[', '<']
            + signed_decimal(code as int) + seq![';'] + signed_decimal(x) + seq![';']
            + signed_decimal(y) + seq!['M'],
        mouse_report_text(MouseKind::Release, code as int, x, y) == mouse_report_text(
            MouseKind::Press,
            code as int,
            x,
            y,
        ).drop_last().push('m'),
        mouse_report_text(MouseKind::Drag, code as int, x, y) == mouse_report_text(
            MouseKind::Press,
            (code | 32u8) as int,
            x,
            y,
        ),
        mouse_report_text(MouseKind::Wheel { down }, code as int, x, y) == mouse_report_text(
            MouseKind::Press,
            if down { 65int } else { 64int },
            x,
            y,
        ),
{
    assert(code | 32u8 == code + 32) by (bit_vector)
        requires
            code < 32u8,
    ;
    let press = mouse_report_text(MouseKind::Press, code as int, x, y);
    assert(press.drop_last().push('m') =~= mouse_report_text(MouseKind::Release, code as int, x, y));
}

/// A pointer move is reported only while a button is held (as seen by the
/// page or as reported by the event).
pub fn reports_motion(held: bool, buttons: u16) -> (res: bool)
    ensures
        res == (held || buttons != 0),
{
    held || buttons != 0
}

/// `ESC [ 200 ~`, which opens a bracketed paste.
pub open spec fn paste_start() -> Seq<char> {
    seq!['\u{1b}', '[', '2', '0', '0', '~']
}

/// `ESC [ 201 ~`, which closes a bracketed paste.
pub open spec fn paste_end() -> Seq<char> {
    seq!['\u{1b}', '[', '2', '0', '1', '~']
}

/// What a paste sends to the PTY: nothing for an empty paste; the text
/// wrapped in bracketed-paste markers when the program asked for them;
/// else the text as is.
pub fn paste_input(text: &str, bracketed: bool) -> (res: Option<String>)
    ensures
        text@.len() == 0 ==> res is None,
        text@.len() > 0 && bracketed ==> (res matches Some(s) && s@ == paste_start() + text@ + paste_end()),
        text@.len() > 0 && !bracketed ==> (res matches Some(s) && s@ == text@),
{
    if text.is_empty() {
        return None;
    }
    let mut s = String::new();
    if bracketed {
        push_str(&mut s, "\u{1b}[200~");
        push_str(&mut s, text);
        push_str(&mut s, "\u{1b}[201~");
        proof {
            reveal_strlit("\u{1b}[200~");
            reveal_strlit("\u{1b}[201~");
            assert(s@ =~= paste_start() + text@ + paste_end());
        }
    } else {
        push_str(&mut s, text);
        proof {
            assert(s@ =~= text@);
        }
    }
    Some(s)
}

/// The report of a window focus change: `ESC [ I` on focus, `ESC [ O` on
/// blur.
pub fn focus_report(focused: bool) -> (res: String)
    ensures
        focused ==> res@ == seq!['\u{1b}', '[', 'I'],
        !focused ==> res@ == seq!['\u{1b}', '[', 'O'],
{
    let mut s = String::new();
    push_char(&mut s, '\u{1b}');
    push_char(&mut s, '[');
    push_char(&mut s, if focused { 'I' } else { 'O' });
    proof {
        assert(s@ =~= seq!['\u{1b}', '[', if focused { 'I' } else { 'O' }]);
    }
    s
}

/// The document title for a terminal title: the title itself, or
/// "ghostty-web" when it is empty.
pub fn document_title(title: String) -> (res: String)
    ensures
        title@.len() > 0 ==> res@ == title@,
        title@.len() == 0 ==> res@ == "ghostty-web"@,
{
    if title.as_str().is_empty() {
        "ghostty-web".to_owned()
    } else {
        title
    }
}

/// Whether a write to the terminal rings a "real" bell: it contains BEL
/// (0x07) and no ESC (0x1b) at all, since the shell also ends every title
/// escape (`ESC ] ... BEL`) with BEL.
pub open spec fn is_real_bell_text(data: Seq<char>) -> bool {
    data.contains('\u{07}') && !data.contains('\u{1b}')
}

/// Decides whether a terminal write rings a real bell.
pub fn is_real_bell(data: &str) -> (res: bool)
    ensures
        res == is_real_bell_text(data@),
{
    let cs = chars_of(data);
    let mut has_bel = false;
    let mut has_esc = false;
    let mut i: usize = 0;
    while i < cs.len()
        invariant
            0 <= i <= cs@.len(),
            cs@ == data@,
            has_bel == (exists|j: int| 0 <= j < i && cs@[j] == '\u{07}'),
            has_esc == (exists|j: int| 0 <= j < i && cs@[j] == '\u{1b}'),
        decreases cs@.len() - i,
    {
        let c = cs[i];
        if c == '\u{07}' {
            has_bel = true;
        }
        if c == '\u{1b}' {
            has_esc = true;
        }
        i = i + 1;
    }
    has_bel && !has_esc
}

/// Whether a console message comes from the terminal library's own
/// logging (its first argument is exactly `[ghostty-vt]`); such messages
/// are dropped.
pub fn is_ghostty_vt_log(first_arg: Option<&str>) -> (res: bool)
    ensures
        res == (first_arg matches Some(a) && a@ == "[ghostty-vt]"@),
{
    match first_arg {
        Some(a) => str_eq(a, "[ghostty-vt]"),
        None => false,
    }
}

} // verus!
