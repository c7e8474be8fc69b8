//! PTY session state and the registry of live sessions.
//!
//! Reattach / take semantics:
//!   - At most one WebSocket is attached to a session at a time.
//!   - A take-over request detaches the previous attachment.
//!   - Otherwise a second connection is refused (`Busy`).
//!   - The attach key is bumped on every successful attach, so that a late
//!     close handler can tell whether it still owns the current attachment.
//!
//! The PTY itself, the channel to the WebSocket and the locking live with
//! the server; this module holds the state those act on.

use vstd::prelude::*;
use vstd::utf8::*;

use crate::protocol::ServerMsg;
use crate::scrollback::{append_scrollback, appended_scrollback, utf8_len, SCROLLBACK_CAP};
use crate::text::str_eq;

verus! {

broadcast use vstd::set::group_set_axioms, vstd::map::group_map_axioms;

/// The WebSocket currently attached to a session: the sender that reaches
/// it, and the key it was attached under.
pub struct Attachment<T> {
    pub tx: T,
    pub key: u64,
}

/// The state of one shell session.
pub struct Session<T> {
    id: String,
    started_at: u128,
    pid: u32,
    scrollback: String,
    attached: Option<Attachment<T>>,
    attach_counter: u64,
}

/// A successful attach: the session attached to, and the key of the new
/// attachment.
pub struct AttachOutcome<S> {
    pub session: S,
    pub attach_key: u64,
}

/// The answer to an attach request.
pub enum AttachResult<S> {
    /// Attached; on reattach, the scrollback to replay (when not empty).
    Attached { outcome: AttachOutcome<S>, scrollback: Option<String> },
    /// Another connection holds the session and no take-over was asked.
    Busy,
}

/// The key that follows `counter` (wrapping, as the counter does).
pub open spec fn next_key(counter: u64) -> u64 {
    if counter == u64::MAX {
        0
    } else {
        (counter + 1) as u64
    }
}

/// The text written to an attached client when its shell exits.
pub open spec fn shell_exited_text() -> Seq<char> {
    seq!['\r', '\n', '\u{1b}', '[', '3', '3', 'm', 'S', 'h', 'e', 'l', 'l', ' ', 'e', 'x', 'i', 't', 'e', 'd', '\u{1b}', '[', '0', 'm', '\r', '\n']
}

impl<T> Session<T> {
    /// The session id.
    pub closed spec fn id_view(&self) -> Seq<char> {
        self.id@
    }

    /// When the session was spawned (milliseconds since the epoch).
    pub closed spec fn started_at_view(&self) -> u128 {
        self.started_at
    }

    /// Process id of the shell.
    pub closed spec fn pid_view(&self) -> u32 {
        self.pid
    }

    /// The replayable output.
    pub closed spec fn scrollback_view(&self) -> Seq<char> {
        self.scrollback@
    }

    /// The key of the current attachment, if any.
    pub closed spec fn attached_key(&self) -> Option<u64> {
        match self.attached {
            Some(a) => Some(a.key),
            None => None,
        }
    }

    /// The sender of the current attachment, if any.
    pub closed spec fn attached_tx(&self) -> Option<T> {
        match self.attached {
            Some(a) => Some(a.tx),
            None => None,
        }
    }

    /// The last key handed out.
    pub closed spec fn counter(&self) -> u64 {
        self.attach_counter
    }

    /// Invariant: the scrollback stays within its cap, and a current
    /// attachment holds the last key handed out.
    pub closed spec fn wf(&self) -> bool {
        &&& utf8_len(self.scrollback@) <= SCROLLBACK_CAP
        &&& (self.attached matches Some(a) ==> a.key == self.attach_counter)
    }

    /// A freshly spawned session: no output yet, nobody attached.
    pub fn new(id: String, started_at: u128, pid: u32) -> (res: Self)
        ensures
            res.wf(),
            res.id_view() == id@,
            res.started_at_view() == started_at,
            res.pid_view() == pid,
            res.scrollback_view() == Seq::<char>::empty(),
            res.attached_key() is None,
            res.counter() == 0,
    {
        Session {
            id,
            started_at,
            pid,
            scrollback: String::new(),
            attached: None,
            attach_counter: 0,
        }
    }

    /// Attaches the sender `tx`. `existed` says whether the session was
    /// already in the registry (a reattach) rather than spawned for this
    /// request; `session` is what the caller refers to the session by.
    pub fn attach<S>(&mut self, session: S, existed: bool, take: bool, tx: T) -> (res: AttachResult<S>)
        requires
            old(self).wf(),
        ensures
            final(self).wf(),
            final(self).id_view() == old(self).id_view(),
            final(self).started_at_view() == old(self).started_at_view(),
            final(self).pid_view() == old(self).pid_view(),
            final(self).scrollback_view() == old(self).scrollback_view(),
            (existed && old(self).attached_key() is Some && !take) ==> {
                &&& res is Busy
                &&& final(self).attached_key() == old(self).attached_key()
                &&& final(self).attached_tx() == old(self).attached_tx()
                &&& final(self).counter() == old(self).counter()
            },
            !(existed && old(self).attached_key() is Some && !take) ==> {
                let key = next_key(old(self).counter());
                &&& final(self).counter() == key
                &&& final(self).attached_key() == Some(key)
                &&& final(self).attached_tx() == Some(tx)
                &&& res matches AttachResult::Attached { outcome, scrollback }
                &&& outcome == (AttachOutcome { session, attach_key: key })
                &&& if existed && old(self).scrollback_view().len() > 0 {
                    scrollback matches Some(sb) && sb@ == old(self).scrollback_view()
                } else {
                    scrollback is None
                }
            },
    {
        if existed && self.attached.is_some() && !take {
            return AttachResult::Busy;
        }
        self.attach_counter = self.attach_counter.wrapping_add(1);
        let attach_key = self.attach_counter;
        self.attached = Some(Attachment { tx, key: attach_key });
        let scrollback = if existed && !self.scrollback.as_str().is_empty() {
            Some(self.scrollback.clone())
        } else {
            None
        };
        AttachResult::Attached { outcome: AttachOutcome { session, attach_key }, scrollback }
    }

    /// Drops the attachment if it is still the one attached under
    /// `attach_key`; a stale key (from a connection that has since been
    /// replaced) changes nothing.
    pub fn detach_if_current(&mut self, attach_key: u64)
        requires
            old(self).wf(),
        ensures
            final(self).wf(),
            final(self).id_view() == old(self).id_view(),
            final(self).started_at_view() == old(self).started_at_view(),
            final(self).pid_view() == old(self).pid_view(),
            final(self).scrollback_view() == old(self).scrollback_view(),
            final(self).counter() == old(self).counter(),
            old(self).attached_key() == Some(attach_key) ==> final(self).attached_key() is None,
            old(self).attached_key() != Some(attach_key) ==> {
                &&& final(self).attached_key() == old(self).attached_key()
                &&& final(self).attached_tx() == old(self).attached_tx()
            },
    {
        let current = match &self.attached {
            Some(a) => a.key == attach_key,
            None => false,
        };
        if current {
            self.attached = None;
        }
    }

    /// Records decoded shell output in the scrollback (trimmed to its cap).
    pub fn append_output(&mut self, decoded: &str)
        requires
            old(self).wf(),
            utf8_len(decoded@) + SCROLLBACK_CAP <= usize::MAX,
        ensures
            final(self).wf(),
            final(self).id_view() == old(self).id_view(),
            final(self).started_at_view() == old(self).started_at_view(),
            final(self).pid_view() == old(self).pid_view(),
            final(self).attached_key() == old(self).attached_key(),
            final(self).attached_tx() == old(self).attached_tx(),
            final(self).counter() == old(self).counter(),
            final(self).scrollback_view() == appended_scrollback(
                old(self).scrollback_view(),
                decoded@,
            ),
    {
        proof {
            crate::scrollback::lemma_utf8_len_concat(self.scrollback@, decoded@);
            crate::scrollback::lemma_appended_scrollback(self.scrollback@, decoded@);
        }
        append_scrollback(&mut self.scrollback, decoded);
    }

    /// The shell has exited: the attachment (if any) is taken out and
    /// handed back, so that it can be told before it is dropped.
    pub fn shell_exited(&mut self) -> (res: Option<Attachment<T>>)
        requires
            old(self).wf(),
        ensures
            final(self).wf(),
            final(self).id_view() == old(self).id_view(),
            final(self).scrollback_view() == old(self).scrollback_view(),
            final(self).counter() == old(self).counter(),
            final(self).attached_key() is None,
            match res {
                Some(a) => old(self).attached_key() == Some(a.key) && old(self).attached_tx() == Some(a.tx),
                None => old(self).attached_key() is None,
            },
    {
        self.attached.take()
    }

    /// The id of the session.
    pub fn id(&self) -> (res: &String)
        ensures
            res@ == self.id_view(),
    {
        &self.id
    }

    /// When the session was spawned (milliseconds since the epoch).
    pub fn started_at(&self) -> (res: u128)
        ensures
            res == self.started_at_view(),
    {
        self.started_at
    }

    /// Process id of the shell.
    pub fn pid(&self) -> (res: u32)
        ensures
            res == self.pid_view(),
    {
        self.pid
    }

    /// The replayable output.
    pub fn scrollback(&self) -> (res: &String)
        ensures
            res@ == self.scrollback_view(),
    {
        &self.scrollback
    }

    /// Whether a WebSocket is attached.
    pub fn is_attached(&self) -> (res: bool)
        ensures
            res == self.attached_key() is Some,
    {
        self.attached.is_some()
    }

    /// The sender of the attached WebSocket, which output for the session is
    /// sent to.
    pub fn attached_sender(&self) -> (res: Option<&T>)
        ensures
            match res {
                Some(t) => self.attached_tx() == Some(*t),
                None => self.attached_tx() is None,
            },
    {
        match &self.attached {
            Some(a) => Some(&a.tx),
            None => None,
        }
    }
}

/// The notice sent to the attached client when the shell exits.
pub fn shell_exited_notice() -> (res: ServerMsg)
    ensures
        res matches ServerMsg::Data { value } && value@ == shell_exited_text(),
{
    let value = "\r\n\u{1b}[33mShell exited\u{1b}[0m\r\n".to_owned();
    proof {
        reveal_strlit("\r\n\u{1b}[33mShell exited\u{1b}[0m\r\n");
        assert(value@ =~= shell_exited_text());
    }
    ServerMsg::Data { value }
}

/// Attach-key law: two successive attaches hand out different keys, so a
/// connection that has been taken over can never detach its successor.
pub proof fn lemma_successive_keys_differ(counter: u64)
    ensures
        next_key(counter) != next_key(next_key(counter)),
{
}

/// One entry of the registry: a session id and what the server holds for
/// that session.
pub struct SessionEntry<S> {
    pub id: String,
    pub session: S,
}

/// The registry of live sessions, by id.
pub struct Sessions<S> {
    entries: Vec<SessionEntry<S>>,
}

impl<S> Sessions<S> {
    /// The ids, in registry order.
    pub closed spec fn ids(&self) -> Seq<Seq<char>> {
        self.entries@.map_values(|e: SessionEntry<S>| e.id@)
    }

    /// Position of `id` in the registry.
    pub closed spec fn position(&self, id: Seq<char>) -> int {
        choose|i: int| 0 <= i < self.entries@.len() && self.entries@[i].id@ == id
    }

    /// The registry as a map from session id to session.
    pub closed spec fn view(&self) -> Map<Seq<char>, S> {
        Map::new(
            |id: Seq<char>| self.ids().contains(id),
            |id: Seq<char>| self.entries@[self.position(id)].session,
        )
    }

    /// Invariant: no id occurs twice.
    pub closed spec fn wf(&self) -> bool {
        self.ids().no_duplicates()
    }

    proof fn lemma_view_at(&self, i: int)
        requires
            self.wf(),
            0 <= i < self.entries@.len(),
        ensures
            self.view().contains_key(self.entries@[i].id@),
            self.view()[self.entries@[i].id@] == self.entries@[i].session,
            self.position(self.entries@[i].id@) == i,
    {
        let id = self.entries@[i].id@;
        assert(self.ids()[i] == id);
        let j = self.position(id);
        assert(self.ids()[j] == id);
    }

    /// An empty registry.
    pub fn new() -> (res: Self)
        ensures
            res.wf(),
            res.view() == Map::<Seq<char>, S>::empty(),
    {
        let res = Sessions { entries: Vec::new() };
        proof {
            assert(res.view() =~= Map::<Seq<char>, S>::empty());
        }
        res
    }

    fn find(&self, id: &str) -> (res: Option<usize>)
        requires
            self.wf(),
        ensures
            match res {
                Some(i) => i < self.entries@.len() && self.entries@[i as int].id@ == id@,
                None => !self.view().contains_key(id@),
            },
    {
        let mut i: usize = 0;
        while i < self.entries.len()
            invariant
                i <= self.entries@.len(),
                forall|j: int| 0 <= j < i ==> self.entries@[j].id@ != id@,
            decreases self.entries.len() - i,
        {
            if str_eq(self.entries[i].id.as_str(), id) {
                return Some(i);
            }
            i = i + 1;
        }
        proof {
            if self.ids().contains(id@) {
                let j = choose|j: int| 0 <= j < self.ids().len() && self.ids()[j] == id@;
                assert(self.entries@[j].id@ == id@);
            }
        }
        None
    }

    /// The session registered under `id`.
    pub fn get(&self, id: &str) -> (res: Option<&S>)
        requires
            self.wf(),
        ensures
            match res {
                Some(s) => self.view().contains_key(id@) && self.view()[id@] == *s,
                None => !self.view().contains_key(id@),
            },
    {
        match self.find(id) {
            Some(i) => {
                proof {
                    self.lemma_view_at(i as int);
                }
                Some(&self.entries[i].session)
            },
            None => None,
        }
    }

    /// Registers `session` under `id`, replacing any session held there.
    pub fn insert(&mut self, id: String, session: S)
        requires
            old(self).wf(),
        ensures
            final(self).wf(),
            final(self).view() == old(self).view().insert(id@, session),
    {
        let ghost old_self = *self;
        match self.find(id.as_str()) {
            Some(i) => {
                let ghost k = id@;
                proof {
                    assert(old_self.ids()[i as int] == k);
                }
                self.entries.set(i, SessionEntry { id, session });
                proof {
                    assert(self.ids()[i as int] == k);
                    assert(self.ids() =~= old_self.ids().update(i as int, k));
                    assert forall|a: int, b: int|
                        0 <= a < self.ids().len() && 0 <= b < self.ids().len() && a != b implies
                        self.ids()[a] != self.ids()[b] by {
                        assert(old_self.ids()[i as int] == k);
                    }
                    assert forall|key: Seq<char>|
                        #![trigger self.view().contains_key(key)]
                        self.view().contains_key(key) == old_self.view().insert(
                            k,
                            session,
                        ).contains_key(key) by {
                        if self.ids().contains(key) {
                            let j = choose|j: int| 0 <= j < self.ids().len() && self.ids()[j] == key;
                            if j != i {
                                assert(old_self.ids()[j] == key);
                            }
                        }
                        if old_self.ids().contains(key) {
                            let j = choose|j: int|
                                0 <= j < old_self.ids().len() && old_self.ids()[j] == key;
                            if j != i {
                                assert(self.ids()[j] == key);
                            } else {
                                assert(self.ids()[i as int] == k);
                            }
                        }
                    }
                    assert forall|key: Seq<char>|
                        #![trigger self.view()[key]]
                        self.view().contains_key(key) implies self.view()[key]
                        == old_self.view().insert(k, session)[key] by {
                        let j = choose|j: int| 0 <= j < self.ids().len() && self.ids()[j] == key;
                        self.lemma_view_at(j);
                        if j != i {
                            old_self.lemma_view_at(j);
                        }
                    }
                    assert(self.view() =~= old_self.view().insert(k, session));
                }
            },
            None => {
                let ghost k = id@;
                self.entries.push(SessionEntry { id, session });
                proof {
                    assert(self.ids() =~= old_self.ids().push(k));
                    let n = old_self.entries@.len() as int;
                    assert forall|a: int, b: int|
                        0 <= a < self.ids().len() && 0 <= b < self.ids().len() && a != b implies
                        self.ids()[a] != self.ids()[b] by {
                        if a == n {
                            assert(!old_self.ids().contains(k));
                            assert(old_self.ids()[b] == self.ids()[b]);
                        } else if b == n {
                            assert(!old_self.ids().contains(k));
                            assert(old_self.ids()[a] == self.ids()[a]);
                        }
                    }
                    assert forall|key: Seq<char>|
                        #![trigger self.view().contains_key(key)]
                        self.view().contains_key(key) == old_self.view().insert(
                            k,
                            session,
                        ).contains_key(key) by {
                        if self.ids().contains(key) {
                            let j = choose|j: int| 0 <= j < self.ids().len() && self.ids()[j] == key;
                            if j != n {
                                assert(old_self.ids()[j] == key);
                            }
                        }
                        if old_self.ids().contains(key) {
                            let j = choose|j: int|
                                0 <= j < old_self.ids().len() && old_self.ids()[j] == key;
                            assert(self.ids()[j] == key);
                        }
                        if key == k {
                            assert(self.ids()[n] == k);
                        }
                    }
                    assert forall|key: Seq<char>|
                        #![trigger self.view()[key]]
                        self.view().contains_key(key) implies self.view()[key]
                        == old_self.view().insert(k, session)[key] by {
                        let j = choose|j: int| 0 <= j < self.ids().len() && self.ids()[j] == key;
                        self.lemma_view_at(j);
                        if j != n {
                            old_self.lemma_view_at(j);
                        }
                    }
                    assert(self.view() =~= old_self.view().insert(k, session));
                }
            },
        }
    }

    /// Forgets the session registered under `id`, if any.
    pub fn remove(&mut self, id: &str)
        requires
            old(self).wf(),
        ensures
            final(self).wf(),
            final(self).view() == old(self).view().remove(id@),
    {
        let ghost old_self = *self;
        match self.find(id) {
            Some(i) => {
                let _removed = self.entries.remove(i);
                proof {
                    let k = id@;
                    assert(self.ids() =~= old_self.ids().remove(i as int));
                    assert forall|a: int, b: int|
                        0 <= a < self.ids().len() && 0 <= b < self.ids().len() && a != b implies
                        self.ids()[a] != self.ids()[b] by {
                        let oa = if a < i { a } else { a + 1 };
                        let ob = if b < i { b } else { b + 1 };
                        assert(self.ids()[a] == old_self.ids()[oa]);
                        assert(self.ids()[b] == old_self.ids()[ob]);
                    }
                    assert forall|key: Seq<char>|
                        #![trigger self.view().contains_key(key)]
                        self.view().contains_key(key) == old_self.view().remove(k).contains_key(
                            key,
                        ) by {
                        if self.ids().contains(key) {
                            let j = choose|j: int| 0 <= j < self.ids().len() && self.ids()[j] == key;
                            let oj = if j < i { j } else { j + 1 };
                            assert(old_self.ids()[oj] == key);
                            assert(old_self.ids()[i as int] == k);
                        }
                        if old_self.ids().contains(key) && key != k {
                            let j = choose|j: int|
                                0 <= j < old_self.ids().len() && old_self.ids()[j] == key;
                            assert(j != i);
                            let nj = if j < i { j } else { j - 1 };
                            assert(self.ids()[nj] == key);
                        }
                    }
                    assert forall|key: Seq<char>|
                        #![trigger self.view()[key]]
                        self.view().contains_key(key) implies self.view()[key]
                        == old_self.view().remove(k)[key] by {
                        let j = choose|j: int| 0 <= j < self.ids().len() && self.ids()[j] == key;
                        self.lemma_view_at(j);
                        let oj = if j < i { j } else { j + 1 };
                        old_self.lemma_view_at(oj);
                    }
                    assert(self.view() =~= old_self.view().remove(k));
                }
            },
            None => {
                proof {
                    assert(self.view() =~= old_self.view().remove(id@));
                }
            },
        }
    }

    /// All registered sessions, each exactly once, in the order of
    /// `ids()`.
    pub fn snapshot(&self) -> (res: Vec<S>)
        where
            S: Clone,
        requires
            self.wf(),
        ensures
            res@.len() == self.ids().len(),
            self.ids().no_duplicates(),
            self.ids().to_set() == self.view().dom(),
            forall|i: int|
                0 <= i < res@.len() ==> cloned(self.view()[self.ids()[i]], #[trigger] res@[i]),
    {
        let mut out: Vec<S> = Vec::new();
        let mut i: usize = 0;
        while i < self.entries.len()
            invariant
                self.wf(),
                i <= self.entries@.len(),
                out@.len() == i,
                forall|j: int| 0 <= j < i ==> cloned(self.entries@[j].session, #[trigger] out@[j]),
            decreases self.entries.len() - i,
        {
            out.push(self.entries[i].session.clone());
            i = i + 1;
        }
        proof {
            assert(self.ids().to_set() =~= self.view().dom());
            assert forall|j: int| 0 <= j < out@.len() implies cloned(
                self.view()[self.ids()[j]],
                #[trigger] out@[j],
            ) by {
                self.lemma_view_at(j);
            }
        }
        out
    }
}

/// Registry law: after `insert` of a session under an id, `get` of that id
/// finds it, and after `remove` of the id it is no longer found; other ids
/// keep what they held throughout; and inserting an id that was absent and
/// removing it again gives back the registry as it was.
pub proof fn lemma_registry_insert_remove<S>(
    before: Sessions<S>,
    inserted: Sessions<S>,
    removed: Sessions<S>,
    id: Seq<char>,
    other: Seq<char>,
    s: S,
)
    requires
        inserted.view() == before.view().insert(id, s),
        removed.view() == inserted.view().remove(id),
        id != other,
    ensures
        inserted.view().contains_key(id) && inserted.view()[id] == s,
        !removed.view().contains_key(id),
        inserted.view().contains_key(other) == before.view().contains_key(other),
        removed.view().contains_key(other) == before.view().contains_key(other),
        before.view().contains_key(other) ==> inserted.view()[other] == before.view()[other]
            && removed.view()[other] == before.view()[other],
        !before.view().contains_key(id) ==> removed.view() == before.view(),
{
    if !before.view().contains_key(id) {
        assert(removed.view() =~= before.view());
    }
}

} // verus!
