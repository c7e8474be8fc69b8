//! Command palette: the registry of command providers, the commands they
//! produce, and the list logic of the palette (filtering, selection,
//! grouping, key handling).

use vstd::prelude::*;

use crate::text::{
    chars_of, contains_text, is_blank, lemma_blank_trims_to_empty, occurs_in, str_eq, trim_ws,
};

verus! {

broadcast use vstd::seq_lib::group_seq_properties;

/// What selecting a command does.
#[derive(Debug, Clone)]
pub enum PaletteAction {
    /// Nothing (the entry of the session shown in this tab).
    Nothing,
    /// Switch this tab to another session, taking it over from its tab
    /// when `take` is set.
    SwitchSession { id: String, take: bool },
    /// Open a new session in a new browser tab.
    OpenNewTab,
    /// Reload the page.
    Reload,
}

/// One entry of the palette.
#[derive(Debug, Clone)]
pub struct Command {
    pub id: String,
    pub label: String,
    pub group: Option<String>,
    pub detail: Option<String>,
    pub hint: Option<String>,
    pub disabled: bool,
    pub on_select: PaletteAction,
}

/// Adds a provider to the registry; providers are asked in the order in
/// which they were registered.
pub fn register_provider<P>(providers: &mut Vec<P>, p: P)
    ensures
        final(providers)@ == old(providers)@.push(p),
{
    providers.push(p);
}

/// The commands of all providers, provider by provider, each provider's
/// commands in the order it gave them.
pub open spec fn flatten_batches<T>(batches: Seq<Seq<T>>) -> Seq<T>
    decreases batches.len(),
{
    if batches.len() == 0 {
        Seq::empty()
    } else {
        flatten_batches(batches.drop_last()) + batches.last()
    }
}

/// Concatenates the command lists that the providers returned.
pub fn load_commands<T>(batches: Vec<Vec<T>>) -> (res: Vec<T>)
    ensures
        res@ == flatten_batches(batches@.map_values(|b: Vec<T>| b@)),
{
    let ghost views = batches@.map_values(|b: Vec<T>| b@);
    let mut out: Vec<T> = Vec::new();
    let mut rest = batches;
    let mut reversed: Vec<Vec<T>> = Vec::new();
    while rest.len() > 0
        invariant
            views == batches@.map_values(|b: Vec<T>| b@),
            rest@.len() + reversed@.len() == views.len(),
            forall|j: int|
                0 <= j < rest@.len() ==> #[trigger] rest@[j]@ == views[j],
            forall|j: int|
                0 <= j < reversed@.len() ==> #[trigger] reversed@[j]@ == views[views.len() - 1 - j],
        decreases rest.len(),
    {
        let b = rest.pop().unwrap();
        reversed.push(b);
    }
    while reversed.len() > 0
        invariant
            views == batches@.map_values(|b: Vec<T>| b@),
            reversed@.len() <= views.len(),
            forall|j: int|
                0 <= j < reversed@.len() ==> #[trigger] reversed@[j]@ == views[views.len() - 1 - j],
            out@ == flatten_batches(views.take(views.len() - reversed@.len())),
        decreases reversed.len(),
    {
        let mut b = reversed.pop().unwrap();
        let ghost k = views.len() - reversed@.len();
        proof {
            assert(views.take(k).drop_last() =~= views.take(k - 1));
            assert(views.take(k).last() == b@);
        }
        out.append(&mut b);
    }
    proof {
        assert(views.take(views.len() as int) =~= views);
    }
    out
}

/// A name for what `str::to_lowercase` returns for a text (lowercase as
/// the Unicode `Lowercase` property defines it).
pub uninterp spec fn lowercased(s: Seq<char>) -> Seq<char>;

/// `str::to_lowercase`. The contract names the result; the Unicode case
/// tables are not stated.
#[verifier::external_body]
fn to_lowercase(s: &str) -> (res: String)
    ensures
        res@ == lowercased(s@),
{
    s.to_lowercase()
}

/// The text a command is searched by: its label, then its detail, hint and
/// group when present, each lowercased and separated by one space.
pub open spec fn haystack(c: Command) -> Seq<char> {
    let part = |o: Option<String>| match o {
        Some(t) => seq![' '] + lowercased(t@),
        None => Seq::<char>::empty(),
    };
    lowercased(c.label@) + part(c.detail) + part(c.hint) + part(c.group)
}

/// Whether a command is listed for the normalized query `q`.
pub open spec fn matches_query(c: Command, q: Seq<char>) -> bool {
    q.len() == 0 || occurs_in(haystack(c), q)
}

fn push_part(hay: &mut String, part: &Option<String>)
    ensures
        final(hay)@ == old(hay)@ + match part {
            Some(t) => seq![' '] + lowercased(t@),
            None => Seq::<char>::empty(),
        },
{
    match part {
        Some(t) => {
            let lower = to_lowercase(t.as_str());
            crate::text::push_char(hay, ' ');
            crate::text::push_str(hay, lower.as_str());
            proof {
                assert(old(hay)@.push(' ') + lowercased(t@) =~= old(hay)@ + (seq![' '] + lowercased(
                    t@,
                )));
            }
        },
        None => {
            proof {
                assert(old(hay)@ + Seq::<char>::empty() =~= old(hay)@);
            }
        },
    }
}

fn command_haystack(c: &Command) -> (res: Vec<char>)
    ensures
        res@ == haystack(*c),
{
    let mut hay = to_lowercase(c.label.as_str());
    push_part(&mut hay, &c.detail);
    push_part(&mut hay, &c.hint);
    push_part(&mut hay, &c.group);
    chars_of(hay.as_str())
}

/// The commands listed for a search query: all of them when the trimmed
/// query is empty, else those whose text contains the trimmed, lowercased
/// query. The order is kept.
pub fn filter_commands(commands: Vec<Command>, query: &str) -> (res: Vec<Command>)
    ensures
        trim_ws(query@).len() == 0 ==> res@ == commands@,
        is_blank(query@) ==> res@ == commands@,
        trim_ws(query@).len() > 0 ==> res@ == commands@.filter(
            |c: Command| matches_query(c, lowercased(trim_ws(query@))),
        ),
{
    proof {
        if is_blank(query@) {
            lemma_blank_trims_to_empty(query@);
        }
    }
    let trimmed_query = crate::text::trim(query);
    if trimmed_query.is_empty() {
        return commands;
    }
    let q_string = to_lowercase(trimmed_query);
    let q = chars_of(q_string.as_str());
    let ghost qv = lowercased(trim_ws(query@));
    let mut out: Vec<Command> = Vec::new();
    let mut rest = commands;
    let mut reversed: Vec<Command> = Vec::new();
    let ghost all = rest@;
    while rest.len() > 0
        invariant
            q@ == qv,
            rest@.len() + reversed@.len() == all.len(),
            forall|j: int| 0 <= j < rest@.len() ==> #[trigger] rest@[j] == all[j],
            forall|j: int|
                0 <= j < reversed@.len() ==> #[trigger] reversed@[j] == all[all.len() - 1 - j],
        decreases rest.len(),
    {
        let c = rest.pop().unwrap();
        reversed.push(c);
    }
    while reversed.len() > 0
        invariant
            q@ == qv,
            reversed@.len() <= all.len(),
            forall|j: int|
                0 <= j < reversed@.len() ==> #[trigger] reversed@[j] == all[all.len() - 1 - j],
            out@ == all.take(all.len() - reversed@.len()).filter(|x: Command| matches_query(x, qv)),
        decreases reversed.len(),
    {
        let c = reversed.pop().unwrap();
        let ghost k = all.len() - reversed@.len();
        proof {
            assert(all.take(k).drop_last() =~= all.take(k - 1));
            assert(all.take(k).last() == c);
        }
        let keep = if q.len() == 0 {
            true
        } else {
            let hay = command_haystack(&c);
            contains_text(&hay, &q)
        };
        proof {
            assert(q@ == qv);
            assert(keep == matches_query(c, qv));
        }
        let ghost prev = out@;
        if keep {
            out.push(c);
        }
        proof {
            let p = |x: Command| matches_query(x, qv);
            reveal(Seq::filter);
            assert(all.take(k).filter(p) == (if p(c) {
                all.take(k - 1).filter(p).push(c)
            } else {
                all.take(k - 1).filter(p)
            }));
        }
    }
    proof {
        assert(all.take(all.len() as int) =~= all);
    }
    out
}

/// The selection after the list has changed to `len` entries: `None` when
/// it stays, else the new selection (the last entry when it ran past the
/// end, 0 for an empty list).
pub fn clamp_selection(selected: usize, len: usize) -> (res: Option<usize>)
    ensures
        selected >= len && len > 0 ==> res == Some((len - 1) as usize),
        len == 0 && selected != 0 ==> res == Some(0usize),
        !(selected >= len && len > 0) && !(len == 0 && selected != 0) ==> res is None,
{
    if selected >= len && len > 0 {
        Some(len - 1)
    } else if len == 0 && selected != 0 {
        Some(0)
    } else {
        None
    }
}

/// One step of the selection through a list of `len` entries, wrapping
/// around at both ends.
pub open spec fn selection_step(next: int, delta: int, len: int) -> int {
    (next + delta + len) % len
}

/// Where the selection ends after moving from `next` in steps of `delta`,
/// skipping disabled entries, for at most `steps` steps.
pub open spec fn moved_selection(next: int, delta: int, disabled: Seq<bool>, steps: nat) -> int
    decreases steps,
{
    if steps == 0 {
        next
    } else {
        let n = selection_step(next, delta, disabled.len() as int);
        if !disabled[n] {
            n
        } else {
            moved_selection(n, delta, disabled, (steps - 1) as nat)
        }
    }
}

/// Moves the selection by `delta` entries (wrapping around), skipping
/// disabled entries; gives up after one full round. The palette moves by
/// one entry at a time; the list and the selection stay below `2^30`, so
/// that the arithmetic fits in an `i32` as the palette computes it.
pub fn move_selection(selected: usize, delta: i32, disabled: &Vec<bool>) -> (res: usize)
    requires
        disabled@.len() <= 0x3fff_ffff,
        selected <= 0x3fff_ffff,
        -1 <= delta <= 1,
    ensures
        disabled@.len() == 0 ==> res == selected,
        disabled@.len() > 0 ==> res == moved_selection(
            selected as int,
            delta as int,
            disabled@,
            disabled@.len() as nat,
        ),
{
    let len = disabled.len();
    if len == 0 {
        return selected;
    }
    let n = len as i32;
    let mut next = selected as i32;
    let mut k: usize = 0;
    loop
        invariant_except_break
            moved_selection(selected as int, delta as int, disabled@, len as nat)
                == moved_selection(next as int, delta as int, disabled@, (len - k) as nat),
        invariant
            n == len,
            len == disabled@.len(),
            0 < len <= 0x3fff_ffff,
            -1 <= delta <= 1,
            k <= len,
            0 <= next <= 0x3fff_ffff,
            k > 0 ==> next < len,
        ensures
            0 <= next,
            next as int == moved_selection(selected as int, delta as int, disabled@, len as nat),
        decreases len - k,
    {
        if k >= len {
            break;
        }
        next = (next + delta + n) % n;
        k = k + 1;
        if !disabled[next as usize] {
            break;
        }
    }
    next as usize
}

/// What a key press in the search box does.
pub enum ListKey {
    /// Move the selection down one entry.
    Down,
    /// Move the selection up one entry.
    Up,
    /// Run the selected command.
    Select,
    /// Nothing.
    Other,
}

/// Maps a key name from the search box to its effect.
pub fn list_key(key: &str) -> (res: ListKey)
    ensures
        key@ == "ArrowDown"@ ==> res is Down,
        key@ == "ArrowUp"@ ==> res is Up,
        key@ == "Enter"@ ==> res is Select,
        key@ != "ArrowDown"@ && key@ != "ArrowUp"@ && key@ != "Enter"@ ==> res is Other,
{
    proof {
        reveal_strlit("ArrowDown");
        reveal_strlit("ArrowUp");
        reveal_strlit("Enter");
        assert("ArrowUp"@.len() != "ArrowDown"@.len());
        assert("Enter"@.len() != "ArrowDown"@.len());
        assert("Enter"@.len() != "ArrowUp"@.len());
    }
    if str_eq(key, "ArrowDown") {
        ListKey::Down
    } else if str_eq(key, "ArrowUp") {
        ListKey::Up
    } else if str_eq(key, "Enter") {
        ListKey::Select
    } else {
        ListKey::Other
    }
}

/// The palette's global shortcut: Cmd/Ctrl+K toggles it, Escape closes it
/// while it is open. Returns the new open state, or `None` when the key is
/// not the palette's.
pub fn palette_hotkey(meta: bool, ctrl: bool, key: &str, open: bool) -> (res: Option<bool>)
    ensures
        (meta || ctrl) && key@ == "k"@ ==> res == Some(!open),
        !((meta || ctrl) && key@ == "k"@) && key@ == "Escape"@ && open ==> res == Some(false),
        !((meta || ctrl) && key@ == "k"@) && !(key@ == "Escape"@ && open) ==> res is None,
{
    proof {
        reveal_strlit("k");
        reveal_strlit("Escape");
    }
    if (meta || ctrl) && str_eq(key, "k") {
        Some(!open)
    } else if str_eq(key, "Escape") && open {
        Some(false)
    } else {
        None
    }
}

/// Selecting a command: `None` when it is disabled, else the action to run
/// (and the palette closes).
pub fn invoke(cmd: Option<Command>) -> (res: Option<PaletteAction>)
    ensures
        match cmd {
            Some(c) => if c.disabled { res is None } else { res == Some(c.on_select) },
            None => res is None,
        },
{
    match cmd {
        Some(c) => {
            if c.disabled {
                None
            } else {
                Some(c.on_select)
            }
        },
        None => None,
    }
}

/// The label a row is grouped under: its group, or the empty label.
pub open spec fn group_label(g: Option<String>) -> Seq<char> {
    match g {
        Some(s) => s@,
        None => Seq::empty(),
    }
}

/// The rows (by position in the filtered list) shown under one group
/// heading.
pub struct RowGroup {
    pub label: String,
    pub rows: Vec<usize>,
}

/// Row `i` is listed in one of the groups.
pub open spec fn in_some_group(res: Seq<RowGroup>, i: int) -> bool {
    exists|g: int| 0 <= g < res.len() && #[trigger] res[g].rows@.contains(i as usize)
}

/// The shape of a grouping of `n` rows with labels `labels`: every group
/// is non-empty, lists rows of its label in increasing order, group labels
/// are distinct, every row is in some group, and groups come in the order
/// in which their labels first appear.
pub open spec fn is_grouping(res: Seq<RowGroup>, labels: Seq<Seq<char>>, n: int) -> bool {
    &&& forall|g: int|
        #![trigger res[g]]
        0 <= g < res.len() ==> {
            &&& res[g].rows@.len() > 0
            &&& forall|a: int, b: int|
                0 <= a < b < res[g].rows@.len() ==> res[g].rows@[a] < res[g].rows@[b]
            &&& forall|a: int|
                0 <= a < res[g].rows@.len() ==> res[g].rows@[a] < n && labels[res[g].rows@[a] as int]
                    == res[g].label@
        }
    &&& forall|g: int, h: int| 0 <= g < h < res.len() ==> res[g].label@ != res[h].label@
    &&& forall|i: int| 0 <= i < n ==> #[trigger] in_some_group(res, i)
    &&& forall|g: int, h: int| 0 <= g < h < res.len() ==> res[g].rows@[0] < res[h].rows@[0]
}

/// Groups the listed rows under their group headings, keeping the list
/// order within each group and ordering groups by first appearance.
pub fn group_rows(groups: &Vec<Option<String>>) -> (res: Vec<RowGroup>)
    ensures
        is_grouping(res@, groups@.map_values(|g: Option<String>| group_label(g)), groups@.len() as int),
{
    let ghost labels = groups@.map_values(|g: Option<String>| group_label(g));
    let mut out: Vec<RowGroup> = Vec::new();
    let mut idx: usize = 0;
    while idx < groups.len()
        invariant
            labels == groups@.map_values(|g: Option<String>| group_label(g)),
            idx <= groups@.len(),
            is_grouping(out@, labels, idx as int),
        decreases groups.len() - idx,
    {
        let label = match &groups[idx] {
            Some(s) => s.clone(),
            None => String::new(),
        };
        assert(label@ == labels[idx as int]);
        let mut j: usize = 0;
        let mut found = false;
        while j < out.len()
            invariant_except_break
                !found,
            invariant
                j <= out@.len(),
                forall|h: int| 0 <= h < j ==> out@[h].label@ != label@,
            ensures
                found ==> j < out@.len() && out@[j as int].label@ == label@,
                !found ==> j == out@.len(),
            decreases out.len() - j,
        {
            if str_eq(out[j].label.as_str(), label.as_str()) {
                found = true;
                break;
            }
            j = j + 1;
        }
        let ghost before = out@;
        if found {
            let mut rows = out[j].rows.clone();
            let ghost old_rows = out@[j as int].rows@;
            proof {
                assert(rows@ =~= old_rows);
            }
            rows.push(idx);
            let kept = out[j].label.clone();
            out.set(j, RowGroup { label: kept, rows });
            proof {
                assert forall|g: int|
                    #![trigger out@[g]]
                    0 <= g < out@.len() implies {
                    &&& out@[g].rows@.len() > 0
                    &&& forall|a: int, b: int|
                        0 <= a < b < out@[g].rows@.len() ==> out@[g].rows@[a] < out@[g].rows@[b]
                    &&& forall|a: int|
                        0 <= a < out@[g].rows@.len() ==> out@[g].rows@[a] < idx + 1
                            && labels[out@[g].rows@[a] as int] == out@[g].label@
                } by {
                    if g == j {
                        assert(before[g].rows@.len() > 0);
                    } else {
                        assert(out@[g] == before[g]);
                    }
                }
                assert forall|i: int| 0 <= i < idx + 1 implies #[trigger] in_some_group(out@, i) by {
                    if i == idx {
                        assert(out@[j as int].rows@.last() == idx);
                        assert(out@[j as int].rows@.contains(i as usize));
                    } else {
                        assert(in_some_group(before, i));
                        let g = choose|g: int|
                            0 <= g < before.len() && #[trigger] before[g].rows@.contains(i as usize);
                        let a = choose|a: int| 0 <= a < before[g].rows@.len() && before[g].rows@[a] == i as usize;
                        assert(out@[g].rows@[a] == i as usize);
                        assert(out@[g].rows@.contains(i as usize));
                    }
                }
                assert forall|g: int, h: int| 0 <= g < h < out@.len() implies out@[g].rows@[0]
                    < out@[h].rows@[0] by {
                    assert(out@[g].rows@[0] == before[g].rows@[0]);
                    assert(out@[h].rows@[0] == before[h].rows@[0]);
                }
                assert forall|g: int, h: int| 0 <= g < h < out@.len() implies out@[g].label@
                    != out@[h].label@ by {
                    assert(out@[g].label@ == before[g].label@);
                    assert(out@[h].label@ == before[h].label@);
                }
            }
        } else {
            let mut rows: Vec<usize> = Vec::new();
            rows.push(idx);
            out.push(RowGroup { label, rows });
            proof {
                let n = before.len() as int;
                assert forall|g: int|
                    #![trigger out@[g]]
                    0 <= g < out@.len() implies {
                    &&& out@[g].rows@.len() > 0
                    &&& forall|a: int, b: int|
                        0 <= a < b < out@[g].rows@.len() ==> out@[g].rows@[a] < out@[g].rows@[b]
                    &&& forall|a: int|
                        0 <= a < out@[g].rows@.len() ==> out@[g].rows@[a] < idx + 1
                            && labels[out@[g].rows@[a] as int] == out@[g].label@
                } by {
                    if g < n {
                        assert(out@[g] == before[g]);
                    }
                }
                assert forall|i: int| 0 <= i < idx + 1 implies #[trigger] in_some_group(out@, i) by {
                    if i == idx {
                        assert(out@[n].rows@[0] == idx);
                        assert(out@[n].rows@.contains(i as usize));
                    } else {
                        assert(in_some_group(before, i));
                        let g = choose|g: int|
                            0 <= g < before.len() && #[trigger] before[g].rows@.contains(i as usize);
                        assert(out@[g] == before[g]);
                        assert(out@[g].rows@.contains(i as usize));
                    }
                }
                assert forall|g: int, h: int| 0 <= g < h < out@.len() implies out@[g].rows@[0]
                    < out@[h].rows@[0] by {
                    if h == n {
                        assert(before[g].rows@[0] < idx);
                    }
                }
            }
        }
        idx = idx + 1;
    }
    out
}

/// The CSS classes of a palette row.
pub open spec fn row_class_text(selected: bool, disabled: bool) -> Seq<char> {
    "ghostty-palette-row"@ + (if selected { " ghostty-palette-row-selected"@ } else { Seq::empty() })
        + (if disabled { " ghostty-palette-row-disabled"@ } else { Seq::empty() })
}

/// The CSS classes of a palette row: selected and disabled rows are marked.
pub fn row_class(selected: bool, disabled: bool) -> (res: String)
    ensures
        res@ == row_class_text(selected, disabled),
{
    let mut cls = "ghostty-palette-row".to_owned();
    if selected {
        crate::text::push_str(&mut cls, " ghostty-palette-row-selected");
    }
    if disabled {
        crate::text::push_str(&mut cls, " ghostty-palette-row-disabled");
    }
    proof {
        assert("ghostty-palette-row"@ + Seq::<char>::empty() =~= "ghostty-palette-row"@);
        assert(cls@ =~= row_class_text(selected, disabled));
    }
    cls
}

/// The entry reached from `next` after `k` single steps in direction
/// `delta` (1 or -1) through a list of `len` entries, wrapping around.
pub open spec fn offset_position(next: int, delta: int, k: int, len: int) -> int {
    (next + (if delta == 1 { k } else { -k })) % len
}

proof fn lemma_moved_reaches(next: int, delta: int, disabled: Seq<bool>, steps: nat, k: int)
    requires
        delta == 1 || delta == -1,
        disabled.len() > 0,
        1 <= k <= steps,
        !disabled[offset_position(next, delta, k, disabled.len() as int)],
    ensures
        0 <= moved_selection(next, delta, disabled, steps) < disabled.len(),
        !disabled[moved_selection(next, delta, disabled, steps)],
    decreases steps,
{
    let len = disabled.len() as int;
    let n1 = selection_step(next, delta, len);
    vstd::arithmetic::div_mod::lemma_mod_add_multiples_vanish(next + delta, len);
    assert(next + delta + len == len + (next + delta));
    vstd::arithmetic::div_mod::lemma_mod_bound(next + delta + len, len);
    assert(n1 == offset_position(next, delta, 1, len));
    if !disabled[n1] {
    } else {
        assert(k >= 2);
        let o = if delta == 1 { k - 1 } else { -(k - 1) };
        vstd::arithmetic::div_mod::lemma_add_mod_noop_right(o, next + delta, len);
        assert(o + n1 == n1 + o);
        assert(o + (next + delta) == next + (if delta == 1 { k } else { -k }));
        assert(offset_position(n1, delta, k - 1, len) == offset_position(next, delta, k, len));
        lemma_moved_reaches(n1, delta, disabled, (steps - 1) as nat, k - 1);
    }
}

/// Selection law: moving the selection by one entry (either way) lands on
/// an enabled entry whenever the list has one.
pub proof fn lemma_move_lands_on_enabled(next: int, delta: int, disabled: Seq<bool>, e: int)
    requires
        delta == 1 || delta == -1,
        0 <= e < disabled.len(),
        !disabled[e],
    ensures
        0 <= moved_selection(next, delta, disabled, disabled.len()) < disabled.len(),
        !disabled[moved_selection(next, delta, disabled, disabled.len())],
{
    let len = disabled.len() as int;
    vstd::arithmetic::div_mod::lemma_small_mod(e as nat, len as nat);
    let diff = if delta == 1 { e - next } else { next - e };
    let k0 = diff % len;
    vstd::arithmetic::div_mod::lemma_mod_bound(diff, len);
    let k = if k0 == 0 { len } else { k0 };
    let o = if delta == 1 { k0 } else { -k0 };
    // (next + o) % len == e
    if delta == 1 {
        vstd::arithmetic::div_mod::lemma_add_mod_noop_right(next, diff, len);
        assert(next + diff == e);
    } else {
        vstd::arithmetic::div_mod::lemma_sub_mod_noop_right(next, diff, len);
        assert(next - diff == e);
    }
    assert((next + o) % len == e);
    if k0 == 0 {
        vstd::arithmetic::div_mod::lemma_mod_add_multiples_vanish(next, len);
        vstd::arithmetic::div_mod::lemma_mod_sub_multiples_vanish(next, len);
        assert(len + next == next + len);
        assert(-len + next == next + (-len));
        assert(offset_position(next, delta, k, len) == e);
    } else {
        assert(offset_position(next, delta, k, len) == e);
    }
    lemma_moved_reaches(next, delta, disabled, disabled.len(), k);
}

proof fn lemma_occurs_in_middle(a: Seq<char>, b: Seq<char>, c: Seq<char>, q: Seq<char>)
    requires
        occurs_in(b, q),
    ensures
        occurs_in(a + b + c, q),
{
    let i = choose|i: int| 0 <= i <= b.len() - q.len() && #[trigger] b.subrange(i, i + q.len()) == q;
    let j = a.len() + i;
    assert((a + b + c).subrange(j, j + q.len()) =~= b.subrange(i, i + q.len()));
}

/// Search law: the searched text of a command covers its label, detail,
/// hint and group: a non-empty query found in any of them, once lowercased,
/// keeps the command in the list.
pub proof fn lemma_search_covers_every_part(c: Command, q: Seq<char>)
    requires
        q.len() > 0,
    ensures
        occurs_in(lowercased(c.label@), q) ==> matches_query(c, q),
        c.detail is Some && occurs_in(lowercased(c.detail->0@), q) ==> matches_query(c, q),
        c.hint is Some && occurs_in(lowercased(c.hint->0@), q) ==> matches_query(c, q),
        c.group is Some && occurs_in(lowercased(c.group->0@), q) ==> matches_query(c, q),
{
    let part = |o: Option<String>| match o {
        Some(t) => seq![' '] + lowercased(t@),
        None => Seq::<char>::empty(),
    };
    let l = lowercased(c.label@);
    let d = part(c.detail);
    let h = part(c.hint);
    let g = part(c.group);
    let e = Seq::<char>::empty();
    assert(haystack(c) == l + d + h + g);
    if occurs_in(l, q) {
        lemma_occurs_in_middle(e, l, d + h + g, q);
        assert(e + l + (d + h + g) =~= haystack(c));
    }
    if c.detail is Some && occurs_in(lowercased(c.detail->0@), q) {
        lemma_occurs_in_middle(seq![' '], lowercased(c.detail->0@), e, q);
        assert(seq![' '] + lowercased(c.detail->0@) + e =~= d);
        lemma_occurs_in_middle(l, d, h + g, q);
        assert(l + d + (h + g) =~= haystack(c));
    }
    if c.hint is Some && occurs_in(lowercased(c.hint->0@), q) {
        lemma_occurs_in_middle(seq![' '], lowercased(c.hint->0@), e, q);
        assert(seq![' '] + lowercased(c.hint->0@) + e =~= h);
        lemma_occurs_in_middle(l + d, h, g, q);
    }
    if c.group is Some && occurs_in(lowercased(c.group->0@), q) {
        lemma_occurs_in_middle(seq![' '], lowercased(c.group->0@), e, q);
        assert(seq![' '] + lowercased(c.group->0@) + e =~= g);
        lemma_occurs_in_middle(l + d + h, g, e, q);
        assert(l + d + h + g + e =~= haystack(c));
    }
}

proof fn lemma_occurs_across_space(a: Seq<char>, b: Seq<char>, q: Seq<char>)
    requires
        occurs_in(a + seq![' '] + b, q),
        !q.contains(' '),
    ensures
        occurs_in(a, q) || occurs_in(b, q),
{
    let all = a + seq![' '] + b;
    let i = choose|i: int| 0 <= i <= all.len() - q.len() && #[trigger] all.subrange(i, i + q.len()) == q;
    if i + q.len() <= a.len() {
        assert(a.subrange(i, i + q.len()) =~= all.subrange(i, i + q.len()));
    } else if i > a.len() {
        let j = i - a.len() - 1;
        assert(b.subrange(j, j + q.len()) =~= all.subrange(i, i + q.len()));
    } else {
        let k = a.len() - i;
        assert(all.subrange(i, i + q.len())[k] == all[a.len() as int]);
        assert(q[k] == ' ');
    }
}

proof fn lemma_occurs_in_part(x: Seq<char>, o: Option<String>, q: Seq<char>)
    requires
        occurs_in(
            x + match o {
                Some(t) => seq![' '] + lowercased(t@),
                None => Seq::<char>::empty(),
            },
            q,
        ),
        !q.contains(' '),
    ensures
        occurs_in(x, q) || (o is Some && occurs_in(lowercased(o->0@), q)),
{
    match o {
        Some(t) => {
            assert(x + (seq![' '] + lowercased(t@)) =~= x + seq![' '] + lowercased(t@));
            lemma_occurs_across_space(x, lowercased(t@), q);
        },
        None => {
            assert(x + Seq::<char>::empty() =~= x);
        },
    }
}

/// Search law, conversely: a non-empty query without a space is found in
/// a command only within one of its parts (label, detail, hint or group,
/// lowercased): the searched text holds nothing else but the spaces that
/// separate them.
pub proof fn lemma_search_only_in_parts(c: Command, q: Seq<char>)
    requires
        q.len() > 0,
        !q.contains(' '),
        matches_query(c, q),
    ensures
        occurs_in(lowercased(c.label@), q) || (c.detail is Some && occurs_in(
            lowercased(c.detail->0@),
            q,
        )) || (c.hint is Some && occurs_in(lowercased(c.hint->0@), q)) || (c.group is Some
            && occurs_in(lowercased(c.group->0@), q)),
{
    let part = |o: Option<String>| match o {
        Some(t) => seq![' '] + lowercased(t@),
        None => Seq::<char>::empty(),
    };
    let l = lowercased(c.label@);
    let d = part(c.detail);
    let h = part(c.hint);
    let g = part(c.group);
    assert(haystack(c) == l + d + h + g);
    lemma_occurs_in_part(l + d + h, c.group, q);
    if occurs_in(l + d + h, q) {
        lemma_occurs_in_part(l + d, c.hint, q);
        if occurs_in(l + d, q) {
            lemma_occurs_in_part(l, c.detail, q);
        }
    }
}

proof fn lemma_step_then_offset(next: int, delta: int, len: int, j: int)
    requires
        delta == 1 || delta == -1,
        len > 0,
    ensures
        selection_step(next, delta, len) == offset_position(next, delta, 1, len),
        offset_position(selection_step(next, delta, len), delta, j, len) == offset_position(
            next,
            delta,
            j + 1,
            len,
        ),
{
    let n1 = selection_step(next, delta, len);
    vstd::arithmetic::div_mod::lemma_mod_add_multiples_vanish(next + delta, len);
    assert(next + delta + len == len + (next + delta));
    let o = if delta == 1 { j } else { -j };
    vstd::arithmetic::div_mod::lemma_add_mod_noop_right(o, next + delta, len);
    assert(o + n1 == n1 + o);
    assert(o + (next + delta) == next + (if delta == 1 { j + 1 } else { -(j + 1) }));
}

proof fn lemma_moved_is_first_enabled(next: int, delta: int, disabled: Seq<bool>, steps: nat)
    requires
        delta == 1 || delta == -1,
        disabled.len() > 0,
    ensures
        forall|k: int|
            1 <= k <= steps && !disabled[#[trigger] offset_position(next, delta, k, disabled.len() as int)]
                && (forall|j: int| 1 <= j < k ==> disabled[offset_position(next, delta, j, disabled.len() as int)])
                ==> moved_selection(next, delta, disabled, steps) == offset_position(
                next,
                delta,
                k,
                disabled.len() as int,
            ),
        steps >= 1 && (forall|j: int|
            1 <= j <= steps ==> disabled[#[trigger] offset_position(next, delta, j, disabled.len() as int)])
            ==> moved_selection(next, delta, disabled, steps) == offset_position(
            next,
            delta,
            steps as int,
            disabled.len() as int,
        ),
    decreases steps,
{
    let len = disabled.len() as int;
    if steps > 0 {
        let n1 = selection_step(next, delta, len);
        lemma_step_then_offset(next, delta, len, 0);
        vstd::arithmetic::div_mod::lemma_mod_bound(next + delta + len, len);
        if disabled[n1] {
            lemma_moved_is_first_enabled(n1, delta, disabled, (steps - 1) as nat);
            assert forall|j: int| #![auto] 0 <= j <= steps implies offset_position(n1, delta, j, len)
                == offset_position(next, delta, j + 1, len) by {
                lemma_step_then_offset(next, delta, len, j);
            }
            assert forall|k: int|
                1 <= k <= steps && !disabled[#[trigger] offset_position(next, delta, k, len)] && (forall|j: int|
                    1 <= j < k ==> disabled[offset_position(next, delta, j, len)]) implies moved_selection(
                next,
                delta,
                disabled,
                steps,
            ) == offset_position(next, delta, k, len) by {
                if k == 1 {
                    assert(offset_position(next, delta, 1, len) == n1);
                } else {
                    lemma_step_then_offset(next, delta, len, k - 1);
                    assert forall|j: int| 1 <= j < k - 1 implies disabled[offset_position(
                        n1,
                        delta,
                        j,
                        len,
                    )] by {
                        lemma_step_then_offset(next, delta, len, j);
                        assert(disabled[offset_position(next, delta, j + 1, len)]);
                    }
                    assert(!disabled[offset_position(n1, delta, k - 1, len)]);
                }
            }
            if steps >= 1 && (forall|j: int| 1 <= j <= steps ==> disabled[#[trigger] offset_position(next, delta, j, len)]) {
                if steps >= 2 {
                    assert forall|j: int| 1 <= j <= steps - 1 implies disabled[#[trigger] offset_position(
                        n1,
                        delta,
                        j,
                        len,
                    )] by {
                        lemma_step_then_offset(next, delta, len, j);
                        assert(disabled[offset_position(next, delta, j + 1, len)]);
                    }
                    lemma_step_then_offset(next, delta, len, steps - 1);
                } else {
                    assert(moved_selection(n1, delta, disabled, 0) == n1);
                }
            }
        } else {
            assert forall|k: int|
                1 <= k <= steps && !disabled[#[trigger] offset_position(next, delta, k, len)] && (forall|j: int|
                    1 <= j < k ==> disabled[offset_position(next, delta, j, len)]) implies moved_selection(
                next,
                delta,
                disabled,
                steps,
            ) == offset_position(next, delta, k, len) by {
                if k > 1 {
                    assert(disabled[offset_position(next, delta, 1, len)]);
                }
            }
            if steps >= 1 && (forall|j: int| 1 <= j <= steps ==> disabled[#[trigger] offset_position(next, delta, j, len)]) {
                assert(disabled[offset_position(next, delta, 1, len)]);
            }
        }
    }
}

/// Selection law: moving the selection by one entry (`delta` 1 or -1) from
/// `selected` through a list of `len` entries goes to the first enabled
/// entry among `(selected + delta * k) mod len` for `k` from 1 to `len`;
/// in particular the next entry itself when it is enabled. When every
/// entry is disabled, it ends where one full round ends.
pub proof fn lemma_move_selection_first_enabled(selected: int, delta: int, disabled: Seq<bool>)
    requires
        delta == 1 || delta == -1,
        disabled.len() > 0,
    ensures
        forall|k: int|
            1 <= k <= disabled.len() && !disabled[#[trigger] offset_position(
                selected,
                delta,
                k,
                disabled.len() as int,
            )] && (forall|j: int|
                1 <= j < k ==> disabled[offset_position(selected, delta, j, disabled.len() as int)])
                ==> moved_selection(selected, delta, disabled, disabled.len()) == offset_position(
                selected,
                delta,
                k,
                disabled.len() as int,
            ),
        !disabled[offset_position(selected, delta, 1, disabled.len() as int)] ==> moved_selection(
            selected,
            delta,
            disabled,
            disabled.len(),
        ) == offset_position(selected, delta, 1, disabled.len() as int),
        (forall|j: int|
            1 <= j <= disabled.len() ==> disabled[#[trigger] offset_position(
                selected,
                delta,
                j,
                disabled.len() as int,
            )]) ==> moved_selection(selected, delta, disabled, disabled.len()) == offset_position(
            selected,
            delta,
            disabled.len() as int,
            disabled.len() as int,
        ),
{
    lemma_moved_is_first_enabled(selected, delta, disabled, disabled.len());
}

} // verus!
