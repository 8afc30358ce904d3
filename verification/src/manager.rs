//! The daemon's table of tabs: hands out ids, remembers which tabs' processes
//! are still running, and decides what killing a tab means.
//!
//! A tab whose process exits is not removed: it is kept, marked exited, until
//! a client dismisses it by killing it again (or at once, when exited tabs are
//! closed automatically). Removing the last tab is reported, so that the
//! daemon can shut itself down.
//!
//! The table holds each tab's handle (`T`) without looking into it; the
//! program around the library keeps the processes and terminals there.

use vstd::prelude::*;

verus! {

/// Result of [`TabManager::kill`].
#[derive(Clone, Copy, Debug, PartialEq, Eq)]
pub enum KillOutcome {
    NotFound,
    /// The tab's process is still running and is to be signaled; the tab
    /// remains, to be marked exited once the process actually dies.
    Killed,
    /// The tab had already exited and has now been dismissed (removed).
    Removed { daemon_now_empty: bool },
}

/// Result of [`TabManager::process_exited`].
#[derive(Clone, Copy, Debug, PartialEq, Eq)]
pub enum ExitOutcome {
    NotFound,
    /// The tab stays listed, marked exited, until it is dismissed.
    Kept,
    /// Exited tabs are closed automatically: the tab was removed.
    Removed { daemon_now_empty: bool },
}

/// One row of the table.
pub struct TabEntry<T> {
    pub id: u32,
    /// Whether the tab's process is still running.
    pub alive: bool,
    pub tab: T,
}

/// The table of open tabs.
pub struct TabManager<T> {
    entries: Vec<TabEntry<T>>,
    next_id: u32,
    /// Every id handed out so far.
    issued: Ghost<Set<u32>>,
    /// Whether the id counter has wrapped around.
    wrapped: Ghost<bool>,
    scrollback_lines: usize,
    auto_close_exited: bool,
}

/// Ids strictly increase along the entries.
pub open spec fn strictly_sorted<T>(s: Seq<TabEntry<T>>) -> bool {
    forall|i: int, j: int| 0 <= i < j < s.len() ==> s[i].id < s[j].id
}

/// The entries as a map from id to (running, handle).
pub open spec fn entry_map<T>(s: Seq<TabEntry<T>>) -> Map<u32, (bool, T)> {
    Map::new(
        |id: u32| exists|i: int| 0 <= i < s.len() && s[i].id == id,
        |id: u32|
            {
                let i = choose|i: int| 0 <= i < s.len() && s[i].id == id;
                (s[i].alive, s[i].tab)
            },
    )
}

proof fn lemma_entry_map_at<T>(s: Seq<TabEntry<T>>, i: int)
    requires
        strictly_sorted(s),
        0 <= i < s.len(),
    ensures
        entry_map(s).contains_key(s[i].id),
        entry_map(s)[s[i].id] == (s[i].alive, s[i].tab),
{
    let id = s[i].id;
    assert(entry_map(s).dom().contains(id));
    let k = choose|k: int| 0 <= k < s.len() && s[k].id == id;
    assert(k == i) by {
        if k < i {
        } else if k > i {
        }
    }
}

proof fn lemma_entry_map_insert<T>(s: Seq<TabEntry<T>>, p: int, e: TabEntry<T>)
    requires
        strictly_sorted(s),
        0 <= p <= s.len(),
        forall|k: int| 0 <= k < p ==> s[k].id < e.id,
        forall|k: int| p <= k < s.len() ==> s[k].id > e.id,
    ensures
        strictly_sorted(s.insert(p, e)),
        entry_map(s.insert(p, e)) == entry_map(s).insert(e.id, (e.alive, e.tab)),
{
    let t = s.insert(p, e);
    assert(strictly_sorted(t)) by {
        assert forall|i: int, j: int| 0 <= i < j < t.len() implies t[i].id < t[j].id by {
            if i < p && j < p {
                assert(t[i] == s[i] && t[j] == s[j]);
            } else if i < p && j == p {
            } else if i < p {
                assert(t[j] == s[j - 1]);
            } else if i == p {
                assert(t[j] == s[j - 1]);
            } else {
                assert(t[i] == s[i - 1] && t[j] == s[j - 1]);
            }
        }
    }
    let m = entry_map(s).insert(e.id, (e.alive, e.tab));
    assert forall|id: u32| entry_map(t).contains_key(id) <==> m.contains_key(id) by {
        if entry_map(t).contains_key(id) {
            let k = choose|k: int| 0 <= k < t.len() && t[k].id == id;
            if k < p {
                assert(s[k].id == id);
            } else if k > p {
                assert(s[k - 1].id == id);
            }
        }
        if m.contains_key(id) && id != e.id {
            let k = choose|k: int| 0 <= k < s.len() && s[k].id == id;
            if k < p {
                assert(t[k].id == id);
            } else {
                assert(t[k + 1].id == id);
            }
        }
        if id == e.id {
            assert(t[p].id == id);
        }
    }
    assert forall|id: u32| #[trigger] entry_map(t).contains_key(id) implies entry_map(t)[id]
        == m[id] by {
        let k = choose|k: int| 0 <= k < t.len() && t[k].id == id;
        lemma_entry_map_at(t, k);
        if k < p {
            assert(t[k] == s[k]);
            lemma_entry_map_at(s, k);
        } else if k > p {
            assert(t[k] == s[k - 1]);
            lemma_entry_map_at(s, k - 1);
        }
    }
    assert(entry_map(t) =~= m);
}

proof fn lemma_entry_map_update<T>(s: Seq<TabEntry<T>>, p: int, e: TabEntry<T>)
    requires
        strictly_sorted(s),
        0 <= p < s.len(),
        s[p].id == e.id,
    ensures
        strictly_sorted(s.update(p, e)),
        entry_map(s.update(p, e)) == entry_map(s).insert(e.id, (e.alive, e.tab)),
{
    let t = s.update(p, e);
    assert(strictly_sorted(t)) by {
        assert forall|i: int, j: int| 0 <= i < j < t.len() implies t[i].id < t[j].id by {
            assert(t[i].id == s[i].id && t[j].id == s[j].id);
        }
    }
    let m = entry_map(s).insert(e.id, (e.alive, e.tab));
    assert forall|id: u32| entry_map(t).contains_key(id) <==> m.contains_key(id) by {
        if entry_map(t).contains_key(id) {
            let k = choose|k: int| 0 <= k < t.len() && t[k].id == id;
            assert(s[k].id == id);
        }
        if m.contains_key(id) && id != e.id {
            let k = choose|k: int| 0 <= k < s.len() && s[k].id == id;
            assert(t[k].id == id);
        }
        if id == e.id {
            assert(t[p].id == id);
        }
    }
    assert forall|id: u32| #[trigger] entry_map(t).contains_key(id) implies entry_map(t)[id]
        == m[id] by {
        let k = choose|k: int| 0 <= k < t.len() && t[k].id == id;
        lemma_entry_map_at(t, k);
        if k != p {
            lemma_entry_map_at(s, k);
        }
    }
    assert(entry_map(t) =~= m);
}

proof fn lemma_entry_map_remove<T>(s: Seq<TabEntry<T>>, p: int)
    requires
        strictly_sorted(s),
        0 <= p < s.len(),
    ensures
        strictly_sorted(s.remove(p)),
        entry_map(s.remove(p)) == entry_map(s).remove(s[p].id),
{
    let t = s.remove(p);
    assert(strictly_sorted(t)) by {
        assert forall|i: int, j: int| 0 <= i < j < t.len() implies t[i].id < t[j].id by {
            if j < p {
                assert(t[i] == s[i] && t[j] == s[j]);
            } else if i < p {
                assert(t[i] == s[i] && t[j] == s[j + 1]);
            } else {
                assert(t[i] == s[i + 1] && t[j] == s[j + 1]);
            }
        }
    }
    let m = entry_map(s).remove(s[p].id);
    assert forall|id: u32| entry_map(t).contains_key(id) <==> m.contains_key(id) by {
        if entry_map(t).contains_key(id) {
            let k = choose|k: int| 0 <= k < t.len() && t[k].id == id;
            if k < p {
                assert(s[k].id == id);
            } else {
                assert(s[k + 1].id == id);
            }
        }
        if m.contains_key(id) {
            let k = choose|k: int| 0 <= k < s.len() && s[k].id == id;
            if k < p {
                assert(t[k].id == id);
            } else if k > p {
                assert(t[k - 1].id == id);
            }
        }
    }
    assert forall|id: u32| #[trigger] entry_map(t).contains_key(id) implies entry_map(t)[id]
        == m[id] by {
        let k = choose|k: int| 0 <= k < t.len() && t[k].id == id;
        lemma_entry_map_at(t, k);
        if k < p {
            lemma_entry_map_at(s, k);
        } else {
            lemma_entry_map_at(s, k + 1);
        }
    }
    assert(entry_map(t) =~= m);
}

proof fn lemma_entry_map_absent<T>(s: Seq<TabEntry<T>>, id: u32)
    requires
        forall|k: int| 0 <= k < s.len() ==> s[k].id != id,
    ensures
        !entry_map(s).contains_key(id),
{
}

impl<T> TabManager<T> {
    /// The open tabs: for each id, whether its process is still running, and its handle.
    pub closed spec fn tabs(&self) -> Map<u32, (bool, T)> {
        entry_map(self.entries@)
    }

    /// The id that the next tab will get.
    pub closed spec fn next_id(&self) -> u32 {
        self.next_id
    }

    /// Every id handed out so far, whether or not its tab is still open.
    pub closed spec fn issued(&self) -> Set<u32> {
        self.issued@
    }

    /// Whether the id counter has gone past `u32::MAX` and started again at 0.
    pub closed spec fn wrapped(&self) -> bool {
        self.wrapped@
    }

    /// Whether exited tabs are removed as soon as their process ends.
    pub closed spec fn auto_close(&self) -> bool {
        self.auto_close_exited
    }

    /// Scrollback lines for each tab's terminal.
    pub closed spec fn scrollback(&self) -> usize {
        self.scrollback_lines
    }

    /// The ids of the open tabs, in increasing order.
    pub closed spec fn ids(&self) -> Seq<u32> {
        self.entries@.map_values(|e: TabEntry<T>| e.id)
    }

    /// The table's internal invariant: ids are strictly increasing along the entries.
    #[verifier::type_invariant]
    spec fn wf(&self) -> bool {
        &&& strictly_sorted(self.entries@)
        &&& !self.wrapped@ ==> forall|x: u32| self.issued@.contains(x) ==> x < self.next_id
    }

    /// An empty table whose first tab gets id 0.
    pub fn new(scrollback_lines: usize, auto_close_exited: bool) -> (r: Self)
        ensures
            r.tabs() == Map::<u32, (bool, T)>::empty(),
            r.next_id() == 0,
            r.issued() == Set::<u32>::empty(),
            !r.wrapped(),
            r.auto_close() == auto_close_exited,
            r.scrollback() == scrollback_lines,
    {
        let r = TabManager {
            entries: Vec::new(),
            next_id: 0,
            issued: Ghost(Set::empty()),
            wrapped: Ghost(false),
            scrollback_lines,
            auto_close_exited,
        };
        assert(entry_map(r.entries@) =~= Map::<u32, (bool, T)>::empty());
        r
    }

    /// Scrollback lines for each tab's terminal.
    pub fn scrollback_lines(&self) -> (r: usize)
        ensures
            r == self.scrollback(),
    {
        self.scrollback_lines
    }

    /// Hands out the id for a new tab: ids count up from 0 (wrapping around
    /// after `u32::MAX`). Until the counter wraps, the id is larger than every
    /// id handed out before it, so ids increase and are never reused, even
    /// after their tabs are gone.
    pub fn allocate_id(&mut self) -> (id: u32)
        ensures
            id == old(self).next_id(),
            !old(self).wrapped() ==> forall|x: u32| #[trigger] old(self).issued().contains(x) ==> x < id,
            final(self).next_id() == id_after(id),
            final(self).issued() == old(self).issued().insert(id),
            final(self).wrapped() == (old(self).wrapped() || id == u32::MAX),
            final(self).tabs() == old(self).tabs(),
            final(self).auto_close() == old(self).auto_close(),
            final(self).scrollback() == old(self).scrollback(),
    {
        proof {
            use_type_invariant(&*self);
        }
        let id = self.next_id;
        if id == u32::MAX {
            self.wrapped = Ghost(true);
            self.next_id = 0;
        } else {
            self.next_id = id + 1;
        }
        self.issued = Ghost(self.issued@.insert(id));
        id
    }

    /// Registers the tab `tab` under `id`, running. An existing tab with the
    /// same id is replaced.
    pub fn insert(&mut self, id: u32, tab: T)
        ensures
            final(self).tabs() == old(self).tabs().insert(id, (true, tab)),
            final(self).next_id() == old(self).next_id(),
            final(self).issued() == old(self).issued(),
            final(self).wrapped() == old(self).wrapped(),
            final(self).auto_close() == old(self).auto_close(),
            final(self).scrollback() == old(self).scrollback(),
    {
        proof {
            use_type_invariant(&*self);
        }
        let n = self.entries.len();
        let mut p: usize = 0;
        while p < n && self.entries[p].id < id
            invariant
                n == self.entries@.len(),
                p <= n,
                forall|k: int| 0 <= k < p ==> self.entries@[k].id < id,
            decreases n - p,
        {
            p = p + 1;
        }
        let e = TabEntry { id, alive: true, tab };
        let mut entries: Vec<TabEntry<T>> = Vec::new();
        std::mem::swap(&mut entries, &mut self.entries);
        if p < n && entries[p].id == id {
            proof {
                lemma_entry_map_update(entries@, p as int, e);
            }
            entries.set(p, e);
        } else {
            proof {
                assert forall|k: int| p <= k < n implies entries@[k].id > id by {
                    assert(entries@[p as int].id <= entries@[k].id);
                }
                lemma_entry_map_insert(entries@, p as int, e);
            }
            entries.insert(p, e);
        }
        self.entries = entries;
    }

    /// The position of `id` among the entries, if it is there.
    fn position(&self, id: u32) -> (r: Option<usize>)
        ensures
            match r {
                Some(p) => p < self.entries@.len() && self.entries@[p as int].id == id,
                None => !self.tabs().contains_key(id),
            },
    {
        proof {
            use_type_invariant(&*self);
        }
        let mut p: usize = 0;
        while p < self.entries.len()
            invariant
                p <= self.entries@.len(),
                forall|k: int| 0 <= k < p ==> self.entries@[k].id != id,
            decreases self.entries.len() - p,
        {
            if self.entries[p].id == id {
                return Some(p);
            }
            p = p + 1;
        }
        None
    }

    /// The handle of tab `id`, if it is open.
    pub fn get(&self, id: u32) -> (r: Option<&T>)
        ensures
            match r {
                Some(t) => self.tabs().contains_key(id) && *t == self.tabs()[id].1,
                None => !self.tabs().contains_key(id),
            },
    {
        proof {
            use_type_invariant(&*self);
        }
        match self.position(id) {
            Some(p) => {
                proof {
                    lemma_entry_map_at(self.entries@, p as int);
                }
                Some(&self.entries[p].tab)
            },
            None => None,
        }
    }

    /// Whether no tab is open.
    pub fn is_empty(&self) -> (r: bool)
        ensures
            r == self.tabs().is_empty(),
    {
        proof {
            use_type_invariant(&*self);
        }
        if self.entries.len() == 0 {
            assert(self.tabs() =~= Map::<u32, (bool, T)>::empty());
            true
        } else {
            proof {
                lemma_entry_map_at(self.entries@, 0);
                assert(self.tabs().dom().contains(self.entries@[0].id));
            }
            false
        }
    }

    /// `ids()` holds each open tab's id once, in increasing order.
    proof fn lemma_ids(&self)
        requires
            strictly_sorted(self.entries@),
        ensures
            forall|i: int, j: int| 0 <= i < j < self.ids().len() ==> self.ids()[i] < self.ids()[j],
            forall|id: u32| self.tabs().contains_key(id) <==> self.ids().contains(id),
            self.ids().len() == self.tabs().len(),
    {
        let ids = self.ids();
        assert forall|id: u32| self.tabs().contains_key(id) <==> ids.contains(id) by {
            if self.tabs().contains_key(id) {
                let k = choose|k: int| 0 <= k < self.entries@.len() && self.entries@[k].id == id;
                assert(ids[k] == id);
            }
            if ids.contains(id) {
                let k = choose|k: int| 0 <= k < ids.len() && ids[k] == id;
                lemma_entry_map_at(self.entries@, k);
            }
        }
        lemma_entry_map_len(self.entries@);
    }

    /// The ids of the open tabs, in increasing order.
    pub fn list(&self) -> (r: Vec<u32>)
        ensures
            r@ == self.ids(),
            forall|i: int, j: int| 0 <= i < j < r@.len() ==> r@[i] < r@[j],
            forall|id: u32| self.tabs().contains_key(id) <==> r@.contains(id),
    {
        proof {
            use_type_invariant(&*self);
        }
        let mut r: Vec<u32> = Vec::new();
        let mut i: usize = 0;
        while i < self.entries.len()
            invariant
                strictly_sorted(self.entries@),
                i <= self.entries@.len(),
                r@ == self.ids().subrange(0, i as int),
            decreases self.entries.len() - i,
        {
            r.push(self.entries[i].id);
            i = i + 1;
            assert(r@ == self.ids().subrange(0, i as int));
        }
        assert(r@ == self.ids());
        proof {
            self.lemma_ids();
        }
        r
    }

    /// The handles of every open tab, in increasing order of id (to signal
    /// them all when the daemon shuts down).
    pub fn kill_all(&self) -> (r: Vec<&T>)
        ensures
            r@.len() == self.ids().len(),
            forall|i: int| 0 <= i < r@.len() ==> *r@[i] == self.tabs()[#[trigger] self.ids()[i]].1,
            forall|i: int, j: int| 0 <= i < j < self.ids().len() ==> self.ids()[i] < self.ids()[j],
            forall|id: u32| self.tabs().contains_key(id) <==> self.ids().contains(id),
    {
        proof {
            use_type_invariant(&*self);
        }
        let mut r: Vec<&T> = Vec::new();
        let mut i: usize = 0;
        while i < self.entries.len()
            invariant
                strictly_sorted(self.entries@),
                i <= self.entries@.len(),
                r@.len() == i,
                forall|k: int| 0 <= k < i ==> *r@[k] == self.entries@[k].tab,
            decreases self.entries.len() - i,
        {
            r.push(&self.entries[i].tab);
            i = i + 1;
        }
        proof {
            assert forall|i: int| 0 <= i < r@.len() implies *r@[i] == self.tabs()[
                #[trigger] self.ids()[i]
            ].1 by {
                lemma_entry_map_at(self.entries@, i);
            }
            self.lemma_ids();
        }
        r
    }

    /// Kills tab `id`: when its process is still running, the tab is to be
    /// signaled and stays listed (`Killed`); when it has already exited, it is
    /// dismissed and its handle handed back (`Removed`), telling whether that
    /// was the last tab, so the daemon can shut down.
    pub fn kill(&mut self, id: u32) -> (r: (KillOutcome, Option<T>))
        ensures
            final(self).next_id() == old(self).next_id(),
            final(self).issued() == old(self).issued(),
            final(self).wrapped() == old(self).wrapped(),
            final(self).auto_close() == old(self).auto_close(),
            final(self).scrollback() == old(self).scrollback(),
            (r.0, final(self).tabs()) == kill_spec(old(self).tabs(), id),
            r.1 == (if r.0 is Removed {
                Some(old(self).tabs()[id].1)
            } else {
                None::<T>
            }),
    {
        proof {
            use_type_invariant(&*self);
        }
        match self.position(id) {
            None => (KillOutcome::NotFound, None),
            Some(p) => {
                proof {
                    lemma_entry_map_at(self.entries@, p as int);
                }
                if self.entries[p].alive {
                    (KillOutcome::Killed, None)
                } else {
                    proof {
                        lemma_entry_map_remove(self.entries@, p as int);
                    }
                    let mut entries: Vec<TabEntry<T>> = Vec::new();
                    std::mem::swap(&mut entries, &mut self.entries);
                    let e = entries.remove(p);
                    self.entries = entries;
                    let empty = self.is_empty();
                    (KillOutcome::Removed { daemon_now_empty: empty }, Some(e.tab))
                }
            },
        }
    }

    /// Records that tab `id`'s process has exited. The tab is kept, marked
    /// exited, until dismissed; or, when exited tabs close automatically, it
    /// is removed and its handle handed back, telling whether it was the last.
    pub fn process_exited(&mut self, id: u32) -> (r: (ExitOutcome, Option<T>))
        ensures
            final(self).next_id() == old(self).next_id(),
            final(self).issued() == old(self).issued(),
            final(self).wrapped() == old(self).wrapped(),
            final(self).auto_close() == old(self).auto_close(),
            final(self).scrollback() == old(self).scrollback(),
            (r.0, final(self).tabs()) == exit_spec(old(self).tabs(), id, old(self).auto_close()),
            r.1 == (if r.0 is Removed {
                Some(old(self).tabs()[id].1)
            } else {
                None::<T>
            }),
    {
        proof {
            use_type_invariant(&*self);
        }
        match self.position(id) {
            None => (ExitOutcome::NotFound, None),
            Some(p) => {
                proof {
                    lemma_entry_map_at(self.entries@, p as int);
                    lemma_entry_map_remove(self.entries@, p as int);
                }
                let ghost s = self.entries@;
                let mut entries: Vec<TabEntry<T>> = Vec::new();
                std::mem::swap(&mut entries, &mut self.entries);
                let e = entries.remove(p);
                if self.auto_close_exited {
                    self.entries = entries;
                    let empty = self.is_empty();
                    (ExitOutcome::Removed { daemon_now_empty: empty }, Some(e.tab))
                } else {
                    let dead = TabEntry { id: e.id, alive: false, tab: e.tab };
                    proof {
                        assert forall|k: int| 0 <= k < p implies entries@[k].id < id by {
                            assert(entries@[k] == s[k]);
                        }
                        assert forall|k: int| p <= k < entries@.len() implies entries@[k].id > id by {
                            assert(entries@[k] == s[k + 1]);
                        }
                        lemma_entry_map_insert(entries@, p as int, dead);
                        assert(entry_map(s).remove(id).insert(id, (false, dead.tab)) =~= entry_map(
                            s,
                        ).insert(id, (false, dead.tab)));
                    }
                    entries.insert(p, dead);
                    self.entries = entries;
                    (ExitOutcome::Kept, None)
                }
            },
        }
    }
}

proof fn lemma_entry_map_len<T>(s: Seq<TabEntry<T>>)
    requires
        strictly_sorted(s),
    ensures
        entry_map(s).dom().finite(),
        entry_map(s).len() == s.len(),
    decreases s.len(),
{
    if s.len() == 0 {
        assert(entry_map(s) =~= Map::<u32, (bool, T)>::empty());
    } else {
        let t = s.drop_last();
        assert(strictly_sorted(t));
        lemma_entry_map_len(t);
        let p = t.len() as int;
        assert(s == t.insert(p, s.last()));
        lemma_entry_map_insert(t, p, s.last());
        lemma_entry_map_absent(t, s.last().id);
    }
}

/// The id handed out after `id`: the next number, wrapping around to 0 after `u32::MAX`.
pub open spec fn id_after(id: u32) -> u32 {
    if id == u32::MAX {
        0
    } else {
        (id + 1) as u32
    }
}

/// What killing tab `id` does to the table: nothing when it is not there;
/// nothing but a signal when its process is running; otherwise it is removed,
/// with a report of whether the table is now empty.
pub open spec fn kill_spec<T>(tabs: Map<u32, (bool, T)>, id: u32) -> (
    KillOutcome,
    Map<u32, (bool, T)>,
) {
    if !tabs.contains_key(id) {
        (KillOutcome::NotFound, tabs)
    } else if tabs[id].0 {
        (KillOutcome::Killed, tabs)
    } else {
        (KillOutcome::Removed { daemon_now_empty: tabs.remove(id).is_empty() }, tabs.remove(id))
    }
}

/// What the exit of tab `id`'s process does to the table: the tab is marked
/// exited and kept, or removed when exited tabs close automatically.
pub open spec fn exit_spec<T>(tabs: Map<u32, (bool, T)>, id: u32, auto_close: bool) -> (
    ExitOutcome,
    Map<u32, (bool, T)>,
) {
    if !tabs.contains_key(id) {
        (ExitOutcome::NotFound, tabs)
    } else if auto_close {
        (ExitOutcome::Removed { daemon_now_empty: tabs.remove(id).is_empty() }, tabs.remove(id))
    } else {
        (ExitOutcome::Kept, tabs.insert(id, (false, tabs[id].1)))
    }
}

/// Killing a tab whose process is still running only signals it: the tab
/// stays listed, unchanged.
pub proof fn lemma_kill_running_keeps_tab<T>(tabs: Map<u32, (bool, T)>, id: u32)
    requires
        tabs.contains_key(id),
        tabs[id].0,
    ensures
        kill_spec(tabs, id) == (KillOutcome::Killed, tabs),
{
}

/// An exited tab stays listed until it is dismissed: when exited tabs are not
/// closed automatically, the exit keeps the tab (marked exited), and the next
/// kill removes it, reporting whether it was the last tab.
pub proof fn lemma_exited_tab_stays_until_dismissed<T>(tabs: Map<u32, (bool, T)>, id: u32)
    requires
        tabs.contains_key(id),
    ensures
        exit_spec(tabs, id, false).0 == ExitOutcome::Kept,
        exit_spec(tabs, id, false).1.contains_key(id),
        !exit_spec(tabs, id, false).1[id].0,
        kill_spec(exit_spec(tabs, id, false).1, id) == (
            KillOutcome::Removed { daemon_now_empty: tabs.remove(id).is_empty() },
            tabs.remove(id),
        ),
{
    assert(tabs.insert(id, (false, tabs[id].1)).remove(id) =~= tabs.remove(id));
}

/// With automatic closing, an exited tab is removed at once, and the last
/// one to go is reported.
pub proof fn lemma_auto_close_removes<T>(tabs: Map<u32, (bool, T)>, id: u32)
    requires
        tabs.contains_key(id),
    ensures
        !exit_spec(tabs, id, true).1.contains_key(id),
        exit_spec(tabs, id, true).1 == tabs.remove(id),
        tabs.dom() == set![id] ==> exit_spec(tabs, id, true).0 == (ExitOutcome::Removed {
            daemon_now_empty: true,
        }),
{
    if tabs.dom() == set![id] {
        assert(tabs.remove(id).dom() =~= Set::<u32>::empty());
    }
}

} // verus!
