use vstd::prelude::*;

use crate::level::EntityId;

verus! {

/// The events a script can register handlers for.
#[derive(Clone, Copy, Debug, PartialEq, Eq, Structural, Hash)]
pub enum EntityEvent {
    OnInit,
    OnUpdate,
}

fn same_text(a: &str, b: &str) -> (r: bool)
    ensures
        r == (a@ == b@),
{
    let n = a.unicode_len();
    if n != b.unicode_len() {
        return false;
    }
    let mut i: usize = 0;
    while i < n
        invariant
            n == a@.len() && n == b@.len(),
            i <= n,
            forall|j: int| 0 <= j < i ==> a@[j] == b@[j],
        decreases n - i,
    {
        if a.get_char(i) != b.get_char(i) {
            return false;
        }
        i = i + 1;
    }
    assert(a@ =~= b@);
    true
}

impl EntityEvent {
    /// The event a script names by `"on_init"` or `"on_update"`; any other name is
    /// handed back as the error.
    pub fn from_string(s: &str) -> (r: Result<EntityEvent, &str>)
        ensures
            s@ == "on_init"@ ==> r == Ok::<EntityEvent, &str>(EntityEvent::OnInit),
            s@ == "on_update"@ ==> r == Ok::<EntityEvent, &str>(EntityEvent::OnUpdate),
            s@ != "on_init"@ && s@ != "on_update"@ ==> r == Err::<EntityEvent, &str>(s),
    {
        proof {
            reveal_strlit("on_init");
            reveal_strlit("on_update");
            assert("on_init"@.len() != "on_update"@.len());
        }
        if same_text(s, "on_init") {
            Ok(EntityEvent::OnInit)
        } else if same_text(s, "on_update") {
            Ok(EntityEvent::OnUpdate)
        } else {
            Err(s)
        }
    }
}

/// The set of events an entity has registered handlers for.
#[derive(Clone, Copy, Debug, PartialEq, Eq, Structural, Default)]
pub struct EventSet {
    pub on_init: bool,
    pub on_update: bool,
}

impl EventSet {
    pub open spec fn has(self, event: EntityEvent) -> bool {
        match event {
            EntityEvent::OnInit => self.on_init,
            EntityEvent::OnUpdate => self.on_update,
        }
    }

    pub fn empty() -> (r: EventSet)
        ensures
            forall|e: EntityEvent| !r.has(e),
    {
        EventSet { on_init: false, on_update: false }
    }

    pub fn contains(&self, event: EntityEvent) -> (r: bool)
        ensures
            r == self.has(event),
    {
        match event {
            EntityEvent::OnInit => self.on_init,
            EntityEvent::OnUpdate => self.on_update,
        }
    }

    pub fn insert(&mut self, event: EntityEvent)
        ensures
            forall|e: EntityEvent| final(self).has(e) == (old(self).has(e) || e == event),
    {
        match event {
            EntityEvent::OnInit => self.on_init = true,
            EntityEvent::OnUpdate => self.on_update = true,
        }
    }
}

/// Who a handler belongs to: one entity, or the game as a whole.
#[derive(Clone, Copy, Debug, PartialEq, Eq, Structural)]
pub enum Owner {
    Entity(EntityId),
    World,
}

/// One handler: `id` is the registration it came from.
#[derive(Clone, Copy, Debug, PartialEq, Eq, Structural)]
pub struct Registration {
    pub owner: Owner,
    pub event: EntityEvent,
    pub id: usize,
}

/// The watcher ids of one variable, in registration order.
#[derive(Clone, Debug)]
pub struct WatchEntry {
    pub key: String,
    pub ids: Vec<usize>,
}

pub open spec fn increasing(s: Seq<usize>) -> bool {
    forall|i: int, j: int| 0 <= i < j < s.len() ==> s[i] < s[j]
}

pub open spec fn bounded_by(s: Seq<usize>, n: usize) -> bool {
    forall|i: int| 0 <= i < s.len() ==> s[i] <= n
}

/// `s` without the occurrences of `id`, order kept.
pub open spec fn without(s: Seq<usize>, id: usize) -> Seq<usize>
    decreases s.len(),
{
    if s.len() == 0 {
        s
    } else if s.last() == id {
        without(s.drop_last(), id)
    } else {
        without(s.drop_last(), id).push(s.last())
    }
}

/// The ids of the handlers for `(owner, event)`, in registration order.
pub open spec fn ids_for(regs: Seq<Registration>, owner: Owner, event: EntityEvent) -> Seq<usize>
    decreases regs.len(),
{
    if regs.len() == 0 {
        Seq::empty()
    } else if regs.last().owner == owner && regs.last().event == event {
        ids_for(regs.drop_last(), owner, event).push(regs.last().id)
    } else {
        ids_for(regs.drop_last(), owner, event)
    }
}

pub open spec fn ids_ascending(regs: Seq<Registration>) -> bool {
    forall|i: int, j: int| 0 <= i < j < regs.len() ==> regs[i].id <= regs[j].id
}

proof fn lemma_ids_for_ordered(regs: Seq<Registration>, owner: Owner, event: EntityEvent)
    requires
        ids_ascending(regs),
    ensures
        forall|i: int| 0 <= i < ids_for(regs, owner, event).len() ==> exists|k: int|
            0 <= k < regs.len() && #[trigger] ids_for(regs, owner, event)[i] == regs[k].id,
        forall|i: int, j: int| 0 <= i < j < ids_for(regs, owner, event).len() ==> ids_for(regs, owner, event)[i]
            <= ids_for(regs, owner, event)[j],
    decreases regs.len(),
{
    if regs.len() > 0 {
        let t = regs.drop_last();
        lemma_ids_for_ordered(t, owner, event);
        let w = ids_for(t, owner, event);
        let r = ids_for(regs, owner, event);
        assert forall|i: int| 0 <= i < r.len() implies exists|k: int| 0 <= k < regs.len() && #[trigger] r[i] == regs[k].id by {
            if i < w.len() {
                let k = choose|k: int| 0 <= k < t.len() && w[i] == t[k].id;
                assert(r[i] == regs[k].id);
            } else {
                assert(r[i] == regs[regs.len() - 1].id);
            }
        }
        assert forall|i: int, j: int| 0 <= i < j < r.len() implies r[i] <= r[j] by {
            if j >= w.len() {
                let k = choose|k: int| 0 <= k < t.len() && w[i] == t[k].id;
                assert(regs[k].id <= regs[regs.len() - 1].id);
            }
        }
    }
}

/// Registrations for each event of `events`, all under one `id`.
pub open spec fn registrations(owner: Owner, events: Seq<EntityEvent>, id: usize) -> Seq<Registration> {
    events.map_values(|e: EntityEvent| Registration { owner, event: e, id })
}

proof fn lemma_without(s: Seq<usize>, id: usize, n: usize)
    ensures
        forall|i: int| 0 <= i < without(s, id).len() ==> s.contains(#[trigger] without(s, id)[i]) && without(s, id)[i] != id,
        !without(s, id).contains(id),
        increasing(s) ==> increasing(without(s, id)),
        bounded_by(s, n) ==> bounded_by(without(s, id), n),
        !s.contains(id) ==> without(s, id) == s,
    decreases s.len(),
{
    if s.len() > 0 {
        let t = s.drop_last();
        lemma_without(t, id, n);
        let w = without(t, id);
        assert forall|i: int| 0 <= i < without(s, id).len() implies s.contains(#[trigger] without(s, id)[i]) && without(s, id)[i] != id by {
            if i < w.len() {
                let k = choose|k: int| 0 <= k < t.len() && t[k] == w[i];
                assert(s[k] == w[i]);
            } else {
                assert(s[s.len() - 1] == s.last());
            }
        }
        if increasing(s) {
            assert forall|i: int, j: int| 0 <= i < j < w.len() implies w[i] < w[j] by {}
            assert(increasing(t));
            if s.last() != id {
                assert forall|i: int| 0 <= i < w.len() implies w[i] < s.last() by {
                    let k = choose|k: int| 0 <= k < t.len() && t[k] == w[i];
                    assert(s[k] == t[k]);
                }
            }
        }
        if bounded_by(s, n) {
            assert(bounded_by(t, n));
        }
        if !s.contains(id) {
            assert(!t.contains(id)) by {
                if t.contains(id) {
                    let k = choose|k: int| 0 <= k < t.len() && t[k] == id;
                    assert(s[k] == id);
                }
            }
            assert(s.last() != id) by {
                assert(s[s.len() - 1] == s.last());
            }
            assert(t.push(s.last()) =~= s);
        }
    }
}

/// Removing a watcher twice is the same as removing it once, and after the first
/// removal the id is gone.
pub proof fn lemma_unwatch_idempotent(s: Seq<usize>, id: usize)
    ensures
        without(without(s, id), id) == without(s, id),
        !without(s, id).contains(id),
{
    lemma_without(s, id, 0);
    lemma_without(without(s, id), id, 0);
}

/// Registration ids, handler tables and variable watchers of the scripting session.
/// Ids come from one counter shared by every kind of registration.
#[derive(Clone, Debug)]
pub struct Global {
    pub counter: usize,
    pub turn_count: usize,
    pub is_debug: bool,
    pub var_watchers: Vec<WatchEntry>,
    pub handlers: Vec<Registration>,
}

impl Global {
    pub open spec fn keys_unique(self) -> bool {
        forall|i: int, j: int|
            0 <= i < j < self.var_watchers@.len() ==> self.var_watchers@[i].key@
                != self.var_watchers@[j].key@
    }

    pub open spec fn is_watched_key(self, key: Seq<char>) -> bool {
        exists|i: int| 0 <= i < self.var_watchers@.len() && self.var_watchers@[i].key@ == key
    }

    /// The watcher ids of variable `key`, in registration order.
    pub open spec fn watchers(self, key: Seq<char>) -> Seq<usize> {
        if self.is_watched_key(key) {
            let i = choose|i: int| 0 <= i < self.var_watchers@.len() && self.var_watchers@[i].key@ == key;
            self.var_watchers@[i].ids@
        } else {
            Seq::empty()
        }
    }

    /// Keys unique; ids of each table in increasing order and never above the counter.
    pub open spec fn wf(self) -> bool {
        &&& self.keys_unique()
        &&& forall|i: int| 0 <= i < self.var_watchers@.len() ==> increasing(#[trigger] self.var_watchers@[i].ids@)
        &&& forall|i: int| 0 <= i < self.var_watchers@.len() ==> bounded_by(#[trigger] self.var_watchers@[i].ids@, self.counter)
        &&& forall|i: int, j: int| 0 <= i < j < self.handlers@.len() ==> self.handlers@[i].id <= self.handlers@[j].id
        &&& forall|i: int| 0 <= i < self.handlers@.len() ==> (#[trigger] self.handlers@[i]).id <= self.counter
    }

    proof fn lemma_watchers_at(self, i: int)
        requires
            self.keys_unique(),
            0 <= i < self.var_watchers@.len(),
        ensures
            self.watchers(self.var_watchers@[i].key@) == self.var_watchers@[i].ids@,
    {
        let key = self.var_watchers@[i].key@;
        assert(self.is_watched_key(key));
        let j = choose|j: int| 0 <= j < self.var_watchers@.len() && self.var_watchers@[j].key@ == key;
        if i < j {
        } else if j < i {
        }
    }

    /// The session's state at start: no registrations, debugging on.
    pub fn init() -> (g: Global)
        ensures
            g.wf(),
            g.counter == 0 && g.turn_count == 0 && g.is_debug,
            g.handlers@.len() == 0,
            forall|k: Seq<char>| !g.is_watched_key(k),
    {
        Global {
            counter: 0,
            turn_count: 0,
            is_debug: true,
            var_watchers: Vec::new(),
            handlers: Vec::new(),
        }
    }

    /// Draws a fresh id: one more than any handed out before.
    pub fn next_id(&mut self) -> (id: usize)
        requires
            old(self).counter < usize::MAX,
        ensures
            id == old(self).counter + 1,
            *final(self) == (Global { counter: id, ..*old(self) }),
    {
        self.counter = self.counter + 1;
        self.counter
    }

    fn find_key(&self, key: &String) -> (r: Option<usize>)
        ensures
            match r {
                Some(i) => i < self.var_watchers@.len() && self.var_watchers@[i as int].key@ == key@,
                None => !self.is_watched_key(key@),
            },
    {
        let mut i: usize = 0;
        while i < self.var_watchers.len()
            invariant
                i <= self.var_watchers@.len(),
                forall|j: int| 0 <= j < i ==> self.var_watchers@[j].key@ != key@,
            decreases self.var_watchers@.len() - i,
        {
            if self.var_watchers[i].key == *key {
                return Some(i);
            }
            i = i + 1;
        }
        None
    }

    /// The ids of the watchers of `key`, in registration order.
    pub fn watchers_of(&self, key: &String) -> (r: Vec<usize>)
        requires
            self.wf(),
        ensures
            r@ == self.watchers(key@),
    {
        let mut out: Vec<usize> = Vec::new();
        match self.find_key(key) {
            None => {},
            Some(i) => {
                proof {
                    self.lemma_watchers_at(i as int);
                }
                let ids = &self.var_watchers[i].ids;
                let mut j: usize = 0;
                while j < ids.len()
                    invariant
                        j <= ids@.len(),
                        out@ == ids@.take(j as int),
                    decreases ids@.len() - j,
                {
                    out.push(ids[j]);
                    j = j + 1;
                    assert(out@ =~= ids@.take(j as int));
                }
                assert(ids@.take(j as int) =~= ids@);
            },
        }
        out
    }

    /// Registers a watcher of variable `key` under a fresh id, which it returns.
    pub fn watch(&mut self, key: String) -> (id: usize)
        requires
            old(self).wf(),
            old(self).counter < usize::MAX,
        ensures
            final(self).wf(),
            id == old(self).counter + 1,
            final(self).counter == id,
            final(self).turn_count == old(self).turn_count,
            final(self).is_debug == old(self).is_debug,
            final(self).handlers@ == old(self).handlers@,
            forall|k: Seq<char>| #[trigger] final(self).is_watched_key(k) == (old(self).is_watched_key(k) || k == key@),
            forall|k: Seq<char>| #[trigger] final(self).watchers(k) == if k == key@ {
                old(self).watchers(k).push(id)
            } else {
                old(self).watchers(k)
            },
    {
        let ghost g0 = *self;
        let id = self.next_id();
        let ghost kv = key@;
        match self.find_key(&key) {
            Some(i) => {
                let mut entry = WatchEntry { key: String::new(), ids: Vec::new() };
                std::mem::swap(&mut entry, &mut self.var_watchers[i]);
                entry.ids.push(id);
                std::mem::swap(&mut entry, &mut self.var_watchers[i]);
                proof {
                    assert(self.keys_unique());
                    self.lemma_watchers_at(i as int);
                    g0.lemma_watchers_at(i as int);
                    assert forall|k: Seq<char>| #[trigger] self.is_watched_key(k) == (g0.is_watched_key(k) || k == kv) by {
                        if g0.is_watched_key(k) {
                            let j = choose|j: int| 0 <= j < g0.var_watchers@.len() && g0.var_watchers@[j].key@ == k;
                            assert(self.var_watchers@[j].key@ == k);
                        }
                        if self.is_watched_key(k) {
                            let j = choose|j: int| 0 <= j < self.var_watchers@.len() && self.var_watchers@[j].key@ == k;
                            assert(g0.var_watchers@[j].key@ == k);
                        }
                    }
                    assert forall|k: Seq<char>| #[trigger] self.watchers(k) == if k == kv {
                        g0.watchers(k).push(id)
                    } else {
                        g0.watchers(k)
                    } by {
                        if k != kv && g0.is_watched_key(k) {
                            let j = choose|j: int| 0 <= j < g0.var_watchers@.len() && g0.var_watchers@[j].key@ == k;
                            self.lemma_watchers_at(j);
                            g0.lemma_watchers_at(j);
                        }
                    }
                    assert forall|a: int| 0 <= a < self.var_watchers@.len() implies increasing(#[trigger] self.var_watchers@[a].ids@)
                        && bounded_by(self.var_watchers@[a].ids@, self.counter) by {
                        assert(increasing(g0.var_watchers@[a].ids@));
                        assert(bounded_by(g0.var_watchers@[a].ids@, g0.counter));
                    }
                }
            },
            None => {
                let mut ids: Vec<usize> = Vec::new();
                ids.push(id);
                self.var_watchers.push(WatchEntry { key, ids });
                proof {
                    let n = g0.var_watchers@.len() as int;
                    assert(self.var_watchers@[n].key@ == kv);
                    assert(self.keys_unique()) by {
                        assert forall|a: int, b: int| 0 <= a < b < self.var_watchers@.len() implies self.var_watchers@[a].key@
                            != self.var_watchers@[b].key@ by {
                            if b == n {
                                assert(g0.var_watchers@[a].key@ != kv);
                            }
                        }
                    }
                    self.lemma_watchers_at(n);
                    assert forall|k: Seq<char>| #[trigger] self.is_watched_key(k) == (g0.is_watched_key(k) || k == kv) by {
                        if g0.is_watched_key(k) {
                            let j = choose|j: int| 0 <= j < g0.var_watchers@.len() && g0.var_watchers@[j].key@ == k;
                            assert(self.var_watchers@[j].key@ == k);
                        }
                        if self.is_watched_key(k) && k != kv {
                            let j = choose|j: int| 0 <= j < self.var_watchers@.len() && self.var_watchers@[j].key@ == k;
                            assert(g0.var_watchers@[j].key@ == k);
                        }
                    }
                    assert forall|k: Seq<char>| #[trigger] self.watchers(k) == if k == kv {
                        g0.watchers(k).push(id)
                    } else {
                        g0.watchers(k)
                    } by {
                        if k == kv {
                            assert(self.var_watchers@[n].ids@ =~= seq![id]);
                            assert(g0.watchers(k) =~= Seq::<usize>::empty());
                        } else if g0.is_watched_key(k) {
                            let j = choose|j: int| 0 <= j < g0.var_watchers@.len() && g0.var_watchers@[j].key@ == k;
                            self.lemma_watchers_at(j);
                            g0.lemma_watchers_at(j);
                        }
                    }
                    assert forall|a: int| 0 <= a < self.var_watchers@.len() implies increasing(#[trigger] self.var_watchers@[a].ids@)
                        && bounded_by(self.var_watchers@[a].ids@, self.counter) by {
                        if a < n {
                            assert(increasing(g0.var_watchers@[a].ids@));
                            assert(bounded_by(g0.var_watchers@[a].ids@, g0.counter));
                        }
                    }
                }
            },
        }
        id
    }

    /// Removes watcher `id` from variable `key`. The variable's (possibly empty) watcher
    /// list stays in place; an unknown key or id changes nothing.
    pub fn unwatch(&mut self, key: &String, id: usize)
        requires
            old(self).wf(),
        ensures
            final(self).wf(),
            final(self).counter == old(self).counter,
            final(self).turn_count == old(self).turn_count,
            final(self).is_debug == old(self).is_debug,
            final(self).handlers@ == old(self).handlers@,
            forall|k: Seq<char>| #[trigger] final(self).is_watched_key(k) == old(self).is_watched_key(k),
            forall|k: Seq<char>| #[trigger] final(self).watchers(k) == if k == key@ {
                without(old(self).watchers(k), id)
            } else {
                old(self).watchers(k)
            },
    {
        let ghost g0 = *self;
        let ghost kv = key@;
        match self.find_key(key) {
            Some(i) => {
                let mut kept: Vec<usize> = Vec::new();
                let ids = &self.var_watchers[i].ids;
                let mut j: usize = 0;
                while j < ids.len()
                    invariant
                        j <= ids@.len(),
                        kept@ == without(ids@.take(j as int), id),
                    decreases ids@.len() - j,
                {
                    let x = ids[j];
                    assert(ids@.take(j + 1).drop_last() =~= ids@.take(j as int));
                    if x != id {
                        kept.push(x);
                    }
                    j = j + 1;
                }
                assert(ids@.take(j as int) =~= ids@);
                proof {
                    lemma_without(g0.var_watchers@[i as int].ids@, id, g0.counter);
                }
                self.var_watchers[i].ids = kept;
                proof {
                    assert(self.keys_unique());
                    self.lemma_watchers_at(i as int);
                    g0.lemma_watchers_at(i as int);
                    assert forall|k: Seq<char>| #[trigger] self.is_watched_key(k) == g0.is_watched_key(k) by {
                        if g0.is_watched_key(k) {
                            let a = choose|a: int| 0 <= a < g0.var_watchers@.len() && g0.var_watchers@[a].key@ == k;
                            assert(self.var_watchers@[a].key@ == k);
                        }
                        if self.is_watched_key(k) {
                            let a = choose|a: int| 0 <= a < self.var_watchers@.len() && self.var_watchers@[a].key@ == k;
                            assert(g0.var_watchers@[a].key@ == k);
                        }
                    }
                    assert forall|k: Seq<char>| #[trigger] self.watchers(k) == if k == kv {
                        without(g0.watchers(k), id)
                    } else {
                        g0.watchers(k)
                    } by {
                        if k != kv && g0.is_watched_key(k) {
                            let a = choose|a: int| 0 <= a < g0.var_watchers@.len() && g0.var_watchers@[a].key@ == k;
                            self.lemma_watchers_at(a);
                            g0.lemma_watchers_at(a);
                        }
                    }
                    assert forall|a: int| 0 <= a < self.var_watchers@.len() implies increasing(#[trigger] self.var_watchers@[a].ids@)
                        && bounded_by(self.var_watchers@[a].ids@, self.counter) by {
                        assert(increasing(g0.var_watchers@[a].ids@));
                        assert(bounded_by(g0.var_watchers@[a].ids@, g0.counter));
                    }
                }
            },
            None => {
                assert(g0.watchers(kv) =~= Seq::<usize>::empty());
            },
        }
    }

    /// Registers the handlers of one registration call: one handler per event of `events`,
    /// all under one fresh id, which it returns. Handlers run in registration order.
    pub fn register(&mut self, owner: Owner, events: &Vec<EntityEvent>) -> (id: usize)
        requires
            old(self).wf(),
            old(self).counter < usize::MAX,
        ensures
            final(self).wf(),
            id == old(self).counter + 1,
            final(self).counter == id,
            final(self).turn_count == old(self).turn_count,
            final(self).is_debug == old(self).is_debug,
            final(self).var_watchers@ == old(self).var_watchers@,
            final(self).handlers@ == old(self).handlers@ + registrations(owner, events@, id),
    {
        let ghost g0 = *self;
        let id = self.next_id();
        let mut k: usize = 0;
        while k < events.len()
            invariant
                k <= events@.len(),
                self.counter == id,
                id == g0.counter + 1,
                self.turn_count == g0.turn_count,
                self.is_debug == g0.is_debug,
                self.var_watchers@ == g0.var_watchers@,
                self.handlers@ == g0.handlers@ + registrations(owner, events@.take(k as int), id),
                g0.wf(),
            decreases events@.len() - k,
        {
            self.handlers.push(Registration { owner, event: events[k], id });
            k = k + 1;
            assert(registrations(owner, events@.take(k as int), id) =~= registrations(owner, events@.take(k - 1), id).push(
                Registration { owner, event: events@[k - 1], id },
            ));
            assert(self.handlers@ =~= g0.handlers@ + registrations(owner, events@.take(k as int), id));
        }
        assert(events@.take(k as int) =~= events@);
        proof {
            let n = g0.handlers@.len() as int;
            assert forall|a: int| 0 <= a < self.var_watchers@.len() implies increasing(#[trigger] self.var_watchers@[a].ids@)
                && bounded_by(self.var_watchers@[a].ids@, self.counter) by {
                assert(increasing(g0.var_watchers@[a].ids@));
                assert(bounded_by(g0.var_watchers@[a].ids@, g0.counter));
            }
            assert forall|a: int, b: int| 0 <= a < b < self.handlers@.len() implies self.handlers@[a].id <= self.handlers@[b].id by {
                if a < n && b >= n {
                    assert(g0.handlers@[a].id <= g0.counter);
                }
            }
            assert forall|a: int| 0 <= a < self.handlers@.len() implies (#[trigger] self.handlers@[a]).id <= self.counter by {
                if a < n {
                    assert(g0.handlers@[a].id <= g0.counter);
                }
            }
        }
        id
    }

    /// The ids of the handlers for `event` of `owner`, in registration order.
    pub fn handlers_for(&self, owner: Owner, event: EntityEvent) -> (r: Vec<usize>)
        requires
            self.wf(),
        ensures
            r@ == ids_for(self.handlers@, owner, event),
            forall|i: int, j: int| 0 <= i < j < r@.len() ==> r@[i] <= r@[j],
    {
        proof {
            lemma_ids_for_ordered(self.handlers@, owner, event);
        }
        let mut out: Vec<usize> = Vec::new();
        let mut i: usize = 0;
        while i < self.handlers.len()
            invariant
                i <= self.handlers@.len(),
                out@ == ids_for(self.handlers@.take(i as int), owner, event),
            decreases self.handlers@.len() - i,
        {
            let h = self.handlers[i];
            assert(self.handlers@.take(i + 1).drop_last() =~= self.handlers@.take(i as int));
            if h.owner == owner && h.event == event {
                out.push(h.id);
            }
            i = i + 1;
        }
        assert(self.handlers@.take(i as int) =~= self.handlers@);
        out
    }

    /// Takes over the host's turn count and debug flag. The counter never goes back, so
    /// ids drawn on either side stay unique.
    pub fn sync_from(&mut self, host: &Global)
        requires
            old(self).wf(),
        ensures
            final(self).wf(),
            final(self).turn_count == host.turn_count,
            final(self).is_debug == host.is_debug,
            final(self).counter == if host.counter > old(self).counter { host.counter } else { old(self).counter },
            final(self).var_watchers@ == old(self).var_watchers@,
            final(self).handlers@ == old(self).handlers@,
    {
        let ghost g0 = *self;
        self.turn_count = host.turn_count;
        self.is_debug = host.is_debug;
        if host.counter > self.counter {
            self.counter = host.counter;
        }
        proof {
            assert forall|a: int| 0 <= a < self.var_watchers@.len() implies increasing(#[trigger] self.var_watchers@[a].ids@)
                && bounded_by(self.var_watchers@[a].ids@, self.counter) by {
                assert(increasing(g0.var_watchers@[a].ids@));
                assert(bounded_by(g0.var_watchers@[a].ids@, g0.counter));
            }
        }
    }
}

/// The scripting view of one entity: its id and the events it has handlers for.
#[derive(Clone, Copy, Debug, PartialEq, Eq, Structural)]
pub struct LuaEntity {
    pub entity: EntityId,
    pub events_registered: EventSet,
}

impl LuaEntity {
    pub fn new(entity: EntityId) -> (r: LuaEntity)
        ensures
            r.entity == entity,
            forall|e: EntityEvent| !r.events_registered.has(e),
    {
        LuaEntity { entity, events_registered: EventSet::empty() }
    }

    /// Registers handlers for `events` on this entity under one fresh id, and records the
    /// events in the entity's event set.
    pub fn register(&mut self, global: &mut Global, events: &Vec<EntityEvent>) -> (id: usize)
        requires
            old(global).wf(),
            old(global).counter < usize::MAX,
        ensures
            final(global).wf(),
            id == old(global).counter + 1,
            final(global).counter == id,
            final(global).turn_count == old(global).turn_count,
            final(global).is_debug == old(global).is_debug,
            final(global).var_watchers@ == old(global).var_watchers@,
            final(global).handlers@ == old(global).handlers@ + registrations(
                Owner::Entity(old(self).entity),
                events@,
                id,
            ),
            final(self).entity == old(self).entity,
            forall|e: EntityEvent| #[trigger] final(self).events_registered.has(e) == (
                old(self).events_registered.has(e) || events@.contains(e)),
    {
        let id = global.register(Owner::Entity(self.entity), events);
        let mut k: usize = 0;
        while k < events.len()
            invariant
                k <= events@.len(),
                self.entity == old(self).entity,
                forall|e: EntityEvent| #[trigger] self.events_registered.has(e) == (
                    old(self).events_registered.has(e) || events@.take(k as int).contains(e)),
            decreases events@.len() - k,
        {
            self.events_registered.insert(events[k]);
            k = k + 1;
            assert forall|e: EntityEvent| #[trigger] self.events_registered.has(e) == (
                old(self).events_registered.has(e) || events@.take(k as int).contains(e)) by {
                assert(events@.take(k as int)[k - 1] == events@[k - 1]);
                let prev = events@.take(k - 1);
                let cur = events@.take(k as int);
                if prev.contains(e) {
                    let a = choose|a: int| 0 <= a < prev.len() && #[trigger] prev[a] == e;
                    assert(cur[a] == e);
                }
                if cur.contains(e) && e != events@[k - 1] {
                    let a = choose|a: int| 0 <= a < cur.len() && #[trigger] cur[a] == e;
                    assert(prev[a] == e);
                }
            }
        }
        assert(events@.take(k as int) =~= events@);
        id
    }
}

} // verus!
