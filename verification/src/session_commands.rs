//! Session-related palette commands: one entry per live session, and the
//! static actions.

use vstd::prelude::*;

use crate::palette::{Command, PaletteAction};
use crate::text::{chars_of, push_char, push_signed_decimal, push_str, signed_decimal, str_eq};

verus! {

/// `x / d` rounded to the nearest integer, halves away from zero (as
/// `f64::round` does), for `x >= 0`.
pub open spec fn rounded_div(x: int, d: int) -> int {
    x / d + if x % d * 2 >= d { 1int } else { 0int }
}

/// "How long ago" for an age of `secs` seconds.
pub open spec fn relative_time_text(secs: int) -> Seq<char> {
    if secs < 5 {
        "just now"@
    } else if secs < 60 {
        signed_decimal(secs) + "s ago"@
    } else {
        let m = rounded_div(secs, 60);
        if m < 60 {
            signed_decimal(m) + "m ago"@
        } else {
            let h = rounded_div(m, 60);
            if h < 24 {
                signed_decimal(h) + "h ago"@
            } else {
                signed_decimal(rounded_div(h, 24)) + "d ago"@
            }
        }
    }
}

fn round_div(x: i64, d: i64) -> (res: i64)
    requires
        x >= 0,
        d == 24 || d == 60,
    ensures
        res == rounded_div(x as int, d as int),
        0 <= res,
{
    x / d + if x % d * 2 >= d {
        1
    } else {
        0
    }
}

/// "How long ago" for an age in whole seconds (rounded from milliseconds by
/// the caller): "just now", then seconds, minutes, hours, days, each
/// rounded to the nearest whole unit.
pub fn relative_time(secs: i64) -> (res: String)
    requires
        secs >= 0,
    ensures
        res@ == relative_time_text(secs as int),
{
    if secs < 5 {
        return "just now".to_owned();
    }
    let mut out = String::new();
    if secs < 60 {
        push_signed_decimal(&mut out, secs);
        push_str(&mut out, "s ago");
        proof {
            assert(Seq::<char>::empty() + signed_decimal(secs as int) + "s ago"@ =~= signed_decimal(
                secs as int,
            ) + "s ago"@);
        }
        return out;
    }
    let m = round_div(secs, 60);
    if m < 60 {
        push_signed_decimal(&mut out, m);
        push_str(&mut out, "m ago");
        proof {
            assert(Seq::<char>::empty() + signed_decimal(m as int) + "m ago"@ =~= signed_decimal(
                m as int,
            ) + "m ago"@);
        }
        return out;
    }
    let h = round_div(m, 60);
    if h < 24 {
        push_signed_decimal(&mut out, h);
        push_str(&mut out, "h ago");
        proof {
            assert(Seq::<char>::empty() + signed_decimal(h as int) + "h ago"@ =~= signed_decimal(
                h as int,
            ) + "h ago"@);
        }
        return out;
    }
    let d = round_div(h, 24);
    push_signed_decimal(&mut out, d);
    push_str(&mut out, "d ago");
    proof {
        assert(Seq::<char>::empty() + signed_decimal(d as int) + "d ago"@ =~= signed_decimal(
            d as int,
        ) + "d ago"@);
    }
    out
}

/// The palette label of a session: the first eight characters of its id,
/// then " · " and its foreground process.
pub open spec fn session_label(id: Seq<char>, active_process: Seq<char>) -> Seq<char> {
    id.take(if id.len() < 8 { id.len() as int } else { 8 }) + " · "@ + active_process
}

/// The palette entry for one live session. `current_id` is the session of
/// this tab; a session nobody is attached to is an orphan, which can be
/// switched to without taking it over from another tab.
pub fn session_command(
    id: &String,
    attached: bool,
    active_process: &String,
    current_id: &String,
    detail: String,
) -> (res: Command)
    ensures
        res.id@ == "session:"@ + id@,
        res.label@ == session_label(id@, active_process@),
        res.detail matches Some(d) && d@ == detail@,
        res.disabled == (id@ == current_id@),
        res.group matches Some(g) && g@ == if !attached {
            "Orphan"@
        } else if id@ == current_id@ {
            "Current"@
        } else {
            "Other tabs"@
        },
        res.hint matches Some(h) && h@ == if id@ == current_id@ {
            "this tab"@
        } else if !attached {
            "switch"@
        } else {
            "take"@
        },
        id@ == current_id@ ==> res.on_select == PaletteAction::Nothing,
        id@ != current_id@ ==> (res.on_select matches PaletteAction::SwitchSession { id: target, take }
            && target@ == id@ && take == attached),
{
    let is_current = str_eq(id.as_str(), current_id.as_str());
    let is_orphan = !attached;
    let group = if is_orphan {
        "Orphan".to_owned()
    } else if is_current {
        "Current".to_owned()
    } else {
        "Other tabs".to_owned()
    };
    let hint = if is_current {
        "this tab".to_owned()
    } else if is_orphan {
        "switch".to_owned()
    } else {
        "take".to_owned()
    };
    let chars = chars_of(id.as_str());
    let mut label = String::new();
    let mut i: usize = 0;
    while i < chars.len() && i < 8
        invariant
            chars@ == id@,
            i <= chars@.len(),
            i <= 8,
            label@ == id@.take(i as int),
        decreases chars.len() - i,
    {
        push_char(&mut label, chars[i]);
        proof {
            assert(id@.take(i as int).push(id@[i as int]) =~= id@.take(i + 1));
        }
        i = i + 1;
    }
    push_str(&mut label, " · ");
    push_str(&mut label, active_process.as_str());
    proof {
        assert(label@ =~= session_label(id@, active_process@));
    }
    let mut cmd_id = "session:".to_owned();
    push_str(&mut cmd_id, id.as_str());
    let on_select = if is_current {
        PaletteAction::Nothing
    } else {
        PaletteAction::SwitchSession { id: id.clone(), take: !is_orphan }
    };
    Command {
        id: cmd_id,
        label,
        group: Some(group),
        detail: Some(detail),
        hint: Some(hint),
        disabled: is_current,
        on_select,
    }
}

/// The static palette actions: open a new session in a new tab, and reload.
pub fn static_actions() -> (res: Vec<Command>)
    ensures
        res@.len() == 2,
        res@[0].id@ == "action:new-tab"@,
        res@[0].label@ == "New session in new tab"@,
        res@[0].group matches Some(g) && g@ == "Actions"@,
        res@[0].detail is None,
        res@[0].hint matches Some(h) && h@ == "⏎"@,
        !res@[0].disabled,
        res@[0].on_select == PaletteAction::OpenNewTab,
        res@[1].id@ == "action:reload"@,
        res@[1].label@ == "Reload"@,
        res@[1].group matches Some(g) && g@ == "Actions"@,
        res@[1].detail is None,
        res@[1].hint matches Some(h) && h@ == "⏎"@,
        !res@[1].disabled,
        res@[1].on_select == PaletteAction::Reload,
{
    let mut v: Vec<Command> = Vec::new();
    v.push(
        Command {
            id: "action:new-tab".to_owned(),
            group: Some("Actions".to_owned()),
            label: "New session in new tab".to_owned(),
            detail: None,
            hint: Some("⏎".to_owned()),
            disabled: false,
            on_select: PaletteAction::OpenNewTab,
        },
    );
    v.push(
        Command {
            id: "action:reload".to_owned(),
            group: Some("Actions".to_owned()),
            label: "Reload".to_owned(),
            detail: None,
            hint: Some("⏎".to_owned()),
            disabled: false,
            on_select: PaletteAction::Reload,
        },
    );
    v
}

} // verus!
