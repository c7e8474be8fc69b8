//! Best-effort name of the foreground child of a shell: `pgrep -n -P <pid>`
//! finds the newest child, then `ps -o comm= -p <child>` names it. Any
//! failure, or no child at all, reads as "(idle)".
//!
//! Running the two commands is left to the caller; this module builds their
//! arguments and interprets what they print.

use vstd::prelude::*;

use crate::text::{decimal, decimal_string, trim, trim_ws};
use crate::utf8_stream::{lossy_decode_complete, utf8_lossy};

verus! {

/// What is shown when the shell runs nothing (or nothing could be found).
pub open spec fn idle_label() -> Seq<char> {
    seq!['(', 'i', 'd', 'l', 'e', ')']
}

/// The label for the shell's foreground process, from what the lookup
/// found: a non-empty name is shown as is, anything else as "(idle)".
pub fn active_process(found: Option<String>) -> (res: String)
    ensures
        match found {
            Some(s) => if s@.len() > 0 { res@ == s@ } else { res@ == idle_label() },
            None => res@ == idle_label(),
        },
{
    match found {
        Some(s) => {
            if !s.as_str().is_empty() {
                return s;
            }
        },
        None => {},
    }
    let idle = "(idle)".to_owned();
    proof {
        reveal_strlit("(idle)");
        assert(idle@ =~= idle_label());
    }
    idle
}

/// Arguments of the `pgrep` call that finds the newest child of `shell_pid`.
pub fn pgrep_args(shell_pid: u32) -> (res: Vec<String>)
    ensures
        res@.len() == 3,
        res@[0]@ == seq!['-', 'n'],
        res@[1]@ == seq!['-', 'P'],
        res@[2]@ == decimal(shell_pid as nat),
{
    let a = "-n".to_owned();
    let b = "-P".to_owned();
    let c = decimal_string(shell_pid as u64);
    proof {
        reveal_strlit("-n");
        reveal_strlit("-P");
        assert(a@ =~= seq!['-', 'n']);
        assert(b@ =~= seq!['-', 'P']);
    }
    let mut v: Vec<String> = Vec::new();
    v.push(a);
    v.push(b);
    v.push(c);
    v
}

/// Arguments of the `ps` call that names the process `child`.
pub fn ps_args(child: &str) -> (res: Vec<String>)
    ensures
        res@.len() == 4,
        res@[0]@ == seq!['-', 'o'],
        res@[1]@ == seq!['c', 'o', 'm', 'm', '='],
        res@[2]@ == seq!['-', 'p'],
        res@[3]@ == child@,
{
    let a = "-o".to_owned();
    let b = "comm=".to_owned();
    let c = "-p".to_owned();
    let d = child.to_owned();
    proof {
        reveal_strlit("-o");
        reveal_strlit("comm=");
        reveal_strlit("-p");
        assert(a@ =~= seq!['-', 'o']);
        assert(b@ =~= seq!['c', 'o', 'm', 'm', '=']);
        assert(c@ =~= seq!['-', 'p']);
    }
    let mut v: Vec<String> = Vec::new();
    v.push(a);
    v.push(b);
    v.push(c);
    v.push(d);
    v
}

/// The text a command printed: its standard output, decoded lossily and
/// trimmed; nothing when the command failed.
pub fn command_text(success: bool, stdout: &[u8]) -> (res: Option<String>)
    ensures
        success ==> (res matches Some(t) && t@ == trim_ws(lossy_decode_complete(stdout@))),
        !success ==> res is None,
{
    if !success {
        return None;
    }
    let text = utf8_lossy(stdout);
    let t = trim(text.as_str()).to_owned();
    Some(t)
}

/// The child found by `pgrep`: its trimmed output, when the command
/// succeeded and printed something.
pub fn pgrep_child(success: bool, stdout: &[u8]) -> (res: Option<String>)
    ensures
        match res {
            Some(t) => success && t@ == trim_ws(lossy_decode_complete(stdout@)) && t@.len() > 0,
            None => !success || trim_ws(lossy_decode_complete(stdout@)).len() == 0,
        },
{
    match command_text(success, stdout) {
        Some(t) => {
            if t.as_str().is_empty() {
                None
            } else {
                Some(t)
            }
        },
        None => None,
    }
}

} // verus!
