use vstd::prelude::*;

verus! {

/// A flow's addresses and ports: (source ip, destination ip, source port, destination port).
pub type FlowKey = (u32, u32, u16, u16);

/// Where an encrypted session stands.
#[derive(Debug, Clone, Copy, PartialEq, Eq, Structural)]
pub enum SessionState {
    Handshake,
    Established,
    Closed,
}

/// What a reassembler keeps for one flow.
pub struct SessionEntry {
    pub key: FlowKey,
    pub buffer: Vec<u8>,
    pub state: SessionState,
    pub last_seen: u64,
}

/// The value a [`SessionEntry`] stands for.
pub struct SessionView {
    pub key: FlowKey,
    pub buffer: Seq<u8>,
    pub state: SessionState,
    pub last_seen: u64,
}

impl View for SessionEntry {
    type V = SessionView;

    open spec fn view(&self) -> SessionView {
        SessionView {
            key: self.key,
            buffer: self.buffer@,
            state: self.state,
            last_seen: self.last_seen,
        }
    }
}

/// No two sessions of `s` share a flow.
pub open spec fn keys_unique(s: Seq<SessionView>) -> bool {
    forall|i: int, j: int| 0 <= i < j < s.len() ==> s[i].key != s[j].key
}

/// Whether `s` holds a session of flow `key`.
pub open spec fn has_flow(s: Seq<SessionView>, key: FlowKey) -> bool {
    exists|i: int| 0 <= i < s.len() && s[i].key == key
}

/// The position of the session of flow `key` in `s`.
pub open spec fn index_of(s: Seq<SessionView>, key: FlowKey) -> int {
    choose|i: int| 0 <= i < s.len() && s[i].key == key
}

/// The earliest `last_seen` of a session still live at `now`: `now - timeout`,
/// or zero while `now < timeout`. A session last seen before it has been idle
/// longer than `timeout`.
pub open spec fn idle_cutoff(now: u64, timeout: u64) -> u64 {
    if now >= timeout {
        (now - timeout) as u64
    } else {
        0
    }
}

/// The sessions of `s` seen at or after `cutoff`, in their order.
pub open spec fn keep_fresh(s: Seq<SessionView>, cutoff: u64) -> Seq<SessionView>
    decreases s.len(),
{
    if s.len() == 0 {
        s
    } else {
        let rest = keep_fresh(s.subrange(1, s.len() as int), cutoff);
        if s[0].last_seen >= cutoff {
            seq![s[0]] + rest
        } else {
            rest
        }
    }
}

/// The position of the first session of `s` with the smallest `last_seen`.
pub open spec fn oldest_index(s: Seq<SessionView>) -> int
    decreases s.len(),
{
    if s.len() <= 1 {
        0
    } else {
        let j = oldest_index(s.drop_last());
        if s.last().last_seen < s[j].last_seen {
            s.len() - 1
        } else {
            j
        }
    }
}

/// The table `s` after it made room for one more session under the limit
/// `max`: when full, stale sessions go; when still full, the oldest goes.
pub open spec fn make_room(s: Seq<SessionView>, max: nat, cutoff: u64) -> Seq<SessionView> {
    if s.len() < max {
        s
    } else {
        let t = keep_fresh(s, cutoff);
        if t.len() < max || t.len() == 0 {
            t
        } else {
            t.remove(oldest_index(t))
        }
    }
}

/// The table `s` once flow `key` has a session: as it was when it had
/// one, else after making room, with a fresh session appended.
pub open spec fn opened(
    s: Seq<SessionView>,
    key: FlowKey,
    now: u64,
    max: nat,
    timeout: u64,
) -> Seq<SessionView> {
    if has_flow(s, key) {
        s
    } else {
        make_room(s, max, idle_cutoff(now, timeout)).push(
            SessionView {
                key,
                buffer: seq![],
                state: SessionState::Handshake,
                last_seen: now,
            },
        )
    }
}

proof fn lemma_keep_fresh_subset(s: Seq<SessionView>, cutoff: u64, x: SessionView)
    requires
        keep_fresh(s, cutoff).contains(x),
    ensures
        s.contains(x),
        x.last_seen >= cutoff,
    decreases s.len(),
{
    let rest = keep_fresh(s.subrange(1, s.len() as int), cutoff);
    if s.len() > 0 {
        if s[0].last_seen >= cutoff && x == s[0] {
            assert(s[0] == x);
        } else {
            if s[0].last_seen >= cutoff {
                let i = choose|i: int|
                    0 <= i < keep_fresh(s, cutoff).len() && keep_fresh(s, cutoff)[i] == x;
                assert(i > 0);
                assert(rest[i - 1] == x);
            }
            lemma_keep_fresh_subset(s.subrange(1, s.len() as int), cutoff, x);
            let j = choose|j: int|
                0 <= j < s.len() - 1 && s.subrange(1, s.len() as int)[j] == x;
            assert(s[j + 1] == x);
        }
    }
}

proof fn lemma_keep_fresh_unique(s: Seq<SessionView>, cutoff: u64)
    requires
        keys_unique(s),
    ensures
        keys_unique(keep_fresh(s, cutoff)),
        keep_fresh(s, cutoff).len() <= s.len(),
        forall|i: int|
            0 <= i < keep_fresh(s, cutoff).len() ==> #[trigger] keep_fresh(s, cutoff)[i].last_seen
                >= cutoff,
        forall|k: FlowKey| has_flow(keep_fresh(s, cutoff), k) ==> has_flow(s, k),
    decreases s.len(),
{
    if s.len() > 0 {
        let tail = s.subrange(1, s.len() as int);
        let rest = keep_fresh(tail, cutoff);
        lemma_keep_fresh_unique(tail, cutoff);
        assert forall|i: int| 0 <= i < rest.len() implies rest[i].key != s[0].key by {
            lemma_keep_fresh_subset(tail, cutoff, rest[i]);
            let j = choose|j: int| 0 <= j < tail.len() && tail[j] == rest[i];
            assert(s[j + 1] == rest[i]);
        }
        let r = keep_fresh(s, cutoff);
        assert forall|i: int| 0 <= i < r.len() implies #[trigger] r[i].last_seen >= cutoff by {
            assert(r.contains(r[i]));
            lemma_keep_fresh_subset(s, cutoff, r[i]);
        }
        assert forall|k: FlowKey| has_flow(r, k) implies has_flow(s, k) by {
            let i = choose|i: int| 0 <= i < r.len() && r[i].key == k;
            assert(r.contains(r[i]));
            lemma_keep_fresh_subset(s, cutoff, r[i]);
            let j = choose|j: int| 0 <= j < s.len() && s[j] == r[i];
            assert(s[j].key == k);
        }
        assert forall|k: FlowKey| has_flow(rest, k) implies has_flow(tail, k) by {}
    }
}

proof fn lemma_oldest_index(s: Seq<SessionView>)
    requires
        s.len() > 0,
    ensures
        0 <= oldest_index(s) < s.len(),
        forall|i: int| 0 <= i < s.len() ==> s[oldest_index(s)].last_seen <= #[trigger] s[i].last_seen,
    decreases s.len(),
{
    if s.len() > 1 {
        let d = s.drop_last();
        lemma_oldest_index(d);
        assert forall|i: int| 0 <= i < s.len() implies s[oldest_index(s)].last_seen
            <= #[trigger] s[i].last_seen by {
            if i < s.len() - 1 {
                assert(s[i] == d[i]);
            }
        }
    }
}

proof fn lemma_make_room(s: Seq<SessionView>, max: nat, cutoff: u64)
    requires
        keys_unique(s),
    ensures
        keys_unique(make_room(s, max, cutoff)),
        forall|k: FlowKey| has_flow(make_room(s, max, cutoff), k) ==> has_flow(s, k),
        s.len() <= max && max > 0 ==> make_room(s, max, cutoff).len() < max,
        s.len() < max ==> make_room(s, max, cutoff) == s,
        forall|i: int|
            0 <= i < make_room(s, max, cutoff).len() ==> s.contains(
                #[trigger] make_room(s, max, cutoff)[i],
            ),
{
    if s.len() >= max {
        let t = keep_fresh(s, cutoff);
        lemma_keep_fresh_unique(s, cutoff);
        if !(t.len() < max || t.len() == 0) {
            let o = oldest_index(t);
            lemma_oldest_index(t);
            let u = t.remove(o);
            assert forall|i: int, j: int| 0 <= i < j < u.len() implies u[i].key != u[j].key by {
                let a = if i < o { i } else { i + 1 };
                let b = if j < o { j } else { j + 1 };
                assert(u[i] == t[a] && u[j] == t[b]);
            }
            assert forall|k: FlowKey| has_flow(u, k) implies has_flow(t, k) by {
                let i = choose|i: int| 0 <= i < u.len() && u[i].key == k;
                let a = if i < o { i } else { i + 1 };
                assert(u[i] == t[a]);
            }
            assert forall|i: int| 0 <= i < u.len() implies s.contains(#[trigger] u[i]) by {
                let a = if i < o { i } else { i + 1 };
                assert(u[i] == t[a]);
                assert(t.contains(t[a]));
                lemma_keep_fresh_subset(s, cutoff, t[a]);
            }
        } else {
            assert forall|i: int| 0 <= i < t.len() implies s.contains(#[trigger] t[i]) by {
                assert(t.contains(t[i]));
                lemma_keep_fresh_subset(s, cutoff, t[i]);
            }
        }
    }
}

/// A table below its limit grows by one for a new flow.
pub proof fn lemma_new_flow_grows_table(
    s: Seq<SessionView>,
    key: FlowKey,
    now: u64,
    max: nat,
    timeout: u64,
)
    requires
        keys_unique(s),
        s.len() < max,
        !has_flow(s, key),
    ensures
        opened(s, key, now, max, timeout).len() == s.len() + 1,
{
}

/// A full table stays exactly full for a new flow when none of its
/// sessions has been idle past the timeout: the session seen longest ago makes room.
pub proof fn lemma_full_table_stays_full(
    s: Seq<SessionView>,
    key: FlowKey,
    now: u64,
    max: nat,
    timeout: u64,
)
    requires
        keys_unique(s),
        max > 0,
        s.len() == max,
        !has_flow(s, key),
        forall|i: int| 0 <= i < s.len() ==> #[trigger] s[i].last_seen >= idle_cutoff(now, timeout),
    ensures
        opened(s, key, now, max, timeout).len() == max,
        !has_flow(opened(s, key, now, max, timeout).drop_last(), s[oldest_index(s)].key),
{
    lemma_keep_fresh_all(s, idle_cutoff(now, timeout));
    lemma_oldest_index(s);
    let o = oldest_index(s);
    let u = s.remove(o);
    let t = opened(s, key, now, max, timeout);
    assert(t.drop_last() =~= u);
    assert forall|i: int| 0 <= i < u.len() implies u[i].key != s[o].key by {
        if i < o {
            assert(u[i] == s[i]);
        } else {
            assert(u[i] == s[i + 1]);
        }
    }
}

/// Nothing goes when every session is fresh.
proof fn lemma_keep_fresh_all(s: Seq<SessionView>, cutoff: u64)
    requires
        forall|i: int| 0 <= i < s.len() ==> #[trigger] s[i].last_seen >= cutoff,
    ensures
        keep_fresh(s, cutoff) == s,
    decreases s.len(),
{
    if s.len() > 0 {
        let tail = s.subrange(1, s.len() as int);
        assert forall|i: int| 0 <= i < tail.len() implies #[trigger] tail[i].last_seen >= cutoff by {
            assert(tail[i] == s[i + 1]);
        }
        lemma_keep_fresh_all(tail, cutoff);
        assert(seq![s[0]] + tail =~= s);
    }
}

/// The table `s` after the flows `keys` are opened one after another at `now`.
pub open spec fn open_all(
    s: Seq<SessionView>,
    keys: Seq<FlowKey>,
    now: u64,
    max: nat,
    timeout: u64,
) -> Seq<SessionView>
    decreases keys.len(),
{
    if keys.len() == 0 {
        s
    } else {
        opened(open_all(s, keys.drop_last(), now, max, timeout), keys.last(), now, max, timeout)
    }
}

proof fn lemma_open_all_step(keys: Seq<FlowKey>, now: u64, max: nat, timeout: u64, i: nat)
    requires
        max > 0,
        i <= keys.len(),
        forall|a: int, b: int| 0 <= a < b < keys.len() ==> keys[a] != keys[b],
    ensures
        ({
            let t = open_all(seq![], keys.subrange(0, i as int), now, max, timeout);
            &&& keys_unique(t)
            &&& t.len() == if i <= max { i } else { max }
            &&& forall|j: int| 0 <= j < t.len() ==> (#[trigger] t[j]).last_seen == now
            &&& forall|j: int|
                0 <= j < t.len() ==> keys.subrange(0, i as int).contains(#[trigger] t[j].key)
        }),
    decreases i,
{
    if i > 0 {
        lemma_open_all_step(keys, now, max, timeout, (i - 1) as nat);
        let pre = keys.subrange(0, i - 1);
        let cur = keys.subrange(0, i as int);
        assert(cur.drop_last() =~= pre);
        let key = keys[i - 1];
        let t = open_all(seq![], pre, now, max, timeout);
        let cutoff = idle_cutoff(now, timeout);
        assert(!has_flow(t, key)) by {
            if has_flow(t, key) {
                let j = choose|j: int| 0 <= j < t.len() && t[j].key == key;
                assert(pre.contains(t[j].key));
                let a = choose|a: int| 0 <= a < pre.len() && pre[a] == key;
                assert(keys[a] != keys[i - 1]);
            }
        }
        lemma_make_room(t, max, cutoff);
        let m = make_room(t, max, cutoff);
        if t.len() == max {
            assert forall|j: int| 0 <= j < t.len() implies #[trigger] t[j].last_seen >= cutoff by {}
            lemma_full_table_stays_full(t, key, now, max, timeout);
        }
        let u = opened(t, key, now, max, timeout);
        assert(u == m.push(u.last()));
        assert forall|a: int, b: int| 0 <= a < b < u.len() implies u[a].key != u[b].key by {
            if b == u.len() - 1 {
                if u[a].key == key {
                    assert(has_flow(m, key));
                }
            }
        }
        assert forall|j: int| 0 <= j < u.len() implies (#[trigger] u[j]).last_seen == now
            && cur.contains(u[j].key) by {
            if j < m.len() {
                assert(t.contains(m[j]));
                let k = choose|k: int| 0 <= k < t.len() && t[k] == m[j];
                assert(pre.contains(t[k].key));
                let a = choose|a: int| 0 <= a < pre.len() && pre[a] == t[k].key;
                assert(cur[a] == pre[a]);
            } else {
                assert(cur[i - 1] == key);
            }
        }
    }
}

/// Offering `max + 1` distinct flows one after another, at one instant, to
/// an empty table of limit `max` leaves exactly `max` sessions.
pub proof fn lemma_table_size_after_flows(keys: Seq<FlowKey>, now: u64, max: nat, timeout: u64)
    requires
        max > 0,
        keys.len() == max + 1,
        forall|a: int, b: int| 0 <= a < b < keys.len() ==> keys[a] != keys[b],
    ensures
        open_all(seq![], keys, now, max, timeout).len() == max,
{
    lemma_open_all_step(keys, now, max, timeout, keys.len());
    assert(keys.subrange(0, keys.len() as int) =~= keys);
}

/// The sessions of one reassembler, at most one per flow.
pub struct SessionTable {
    entries: Vec<SessionEntry>,
}

impl View for SessionTable {
    type V = Seq<SessionView>;

    closed spec fn view(&self) -> Seq<SessionView> {
        self.entries@.map_values(|e: SessionEntry| e@)
    }
}

impl SessionTable {
    pub open spec fn wf(&self) -> bool {
        keys_unique(self@)
    }

    pub fn new() -> (r: SessionTable)
        ensures
            r@ == Seq::<SessionView>::empty(),
            r.wf(),
    {
        let r = SessionTable { entries: Vec::new() };
        assert(r@ =~= Seq::<SessionView>::empty());
        r
    }

    /// The number of sessions.
    pub fn len(&self) -> (r: usize)
        ensures
            r == self@.len(),
    {
        self.entries.len()
    }

    /// The position of the session of flow `key`, if there is one.
    pub fn find(&self, key: FlowKey) -> (r: Option<usize>)
        ensures
            match r {
                Some(i) => i < self@.len() && self@[i as int].key == key,
                None => !has_flow(self@, key),
            },
    {
        let mut i: usize = 0;
        while i < self.entries.len()
            invariant
                i <= self.entries@.len(),
                forall|j: int| 0 <= j < i ==> #[trigger] self@[j].key != key,
            decreases self.entries@.len() - i,
        {
            let k = self.entries[i].key;
            if k.0 == key.0 && k.1 == key.1 && k.2 == key.2 && k.3 == key.3 {
                return Some(i);
            }
            i = i + 1;
        }
        None
    }

    /// Drops every session last seen before `cutoff`.
    pub fn remove_stale(&mut self, cutoff: u64)
        requires
            old(self).wf(),
        ensures
            final(self)@ == keep_fresh(old(self)@, cutoff),
            final(self).wf(),
    {
        let ghost s = self@;
        let mut i = self.entries.len();
        while i > 0
            invariant
                i <= s.len(),
                self@ == s.subrange(0, i as int) + keep_fresh(s.subrange(i as int, s.len() as int), cutoff),
            decreases i,
        {
            i = i - 1;
            let ghost tail = s.subrange(i as int, s.len() as int);
            let ghost before = self@;
            assert(tail.subrange(1, tail.len() as int) =~= s.subrange(i + 1, s.len() as int));
            assert(before.len() == self.entries@.len());
            assert(before[i as int] == s[i as int]);
            assert(tail[0] == s[i as int]);
            let ghost rest = keep_fresh(s.subrange(i + 1, s.len() as int), cutoff);
            if self.entries[i].last_seen < cutoff {
                self.entries.remove(i);
                assert(self@ =~= before.remove(i as int));
                assert(keep_fresh(tail, cutoff) == rest);
                assert(self@ =~= s.subrange(0, i as int) + keep_fresh(tail, cutoff));
            } else {
                assert(keep_fresh(tail, cutoff) == seq![s[i as int]] + rest);
                assert(self@ =~= s.subrange(0, i as int) + keep_fresh(tail, cutoff));
            }
        }
        assert(s.subrange(0, s.len() as int) =~= s);
        assert(self@ =~= keep_fresh(s, cutoff));
        proof {
            lemma_keep_fresh_unique(s, cutoff);
        }
    }

    /// Drops the session seen longest ago; the first of them on a tie.
    fn remove_oldest(&mut self)
        requires
            old(self).wf(),
            old(self)@.len() > 0,
        ensures
            final(self)@ == old(self)@.remove(oldest_index(old(self)@)),
    {
        let ghost s = self@;
        let mut best: usize = 0;
        let mut i: usize = 1;
        assert(s.subrange(0, 1).len() == 1);
        while i < self.entries.len()
            invariant
                1 <= i <= s.len(),
                self@ == s,
                s.len() == self.entries@.len(),
                best == oldest_index(s.subrange(0, i as int)),
                best < i,
            decreases s.len() - i,
        {
            let ghost pre = s.subrange(0, i as int + 1);
            assert(pre.drop_last() =~= s.subrange(0, i as int));
            assert(pre.last() == s[i as int]);
            assert(pre[best as int] == s[best as int]);
            if self.entries[i].last_seen < self.entries[best].last_seen {
                best = i;
            }
            i = i + 1;
        }
        assert(s.subrange(0, s.len() as int) =~= s);
        proof {
            lemma_oldest_index(s);
        }
        self.entries.remove(best);
        assert(self@ =~= s.remove(best as int));
    }

    /// Makes sure flow `key` has a session and returns its position.
    ///
    /// A flow not yet seen gets a fresh session (no bytes, in handshake,
    /// seen at `now`) at the end of the table, after room is made for it.
    pub fn open(&mut self, key: FlowKey, now: u64, max_sessions: usize, timeout: u64) -> (r: usize)
        requires
            old(self).wf(),
        ensures
            final(self)@ == opened(old(self)@, key, now, max_sessions as nat, timeout),
            final(self).wf(),
            r < final(self)@.len(),
            final(self)@[r as int].key == key,
    {
        match self.find(key) {
            Some(i) => i,
            None => {
                let ghost s = self@;
                let cutoff = if now >= timeout {
                    now - timeout
                } else {
                    0
                };
                if self.entries.len() >= max_sessions {
                    self.remove_stale(cutoff);
                    if self.entries.len() >= max_sessions && self.entries.len() > 0 {
                        self.remove_oldest();
                    }
                }
                proof {
                    lemma_make_room(s, max_sessions as nat, cutoff);
                }
                assert(self@ == make_room(s, max_sessions as nat, cutoff));
                let ghost room = self@;
                self.entries.push(
                    SessionEntry {
                        key,
                        buffer: Vec::new(),
                        state: SessionState::Handshake,
                        last_seen: now,
                    },
                );
                let n = self.entries.len() - 1;
                proof {
                    assert(self@ =~= room.push(self@[n as int]));
                    assert(!has_flow(room, key));
                    assert forall|i: int, j: int|
                        0 <= i < j < self@.len() implies self@[i].key != self@[j].key by {
                        if j == n {
                            assert(room[i].key != key);
                        } else {
                            assert(room[i].key != room[j].key);
                        }
                    }
                }
                n
            },
        }
    }

    /// Takes the session at `i` out of the table.
    pub fn take(&mut self, i: usize) -> (r: SessionEntry)
        requires
            i < old(self)@.len(),
        ensures
            r@ == old(self)@[i as int],
            final(self)@ == old(self)@.remove(i as int),
    {
        let r = self.entries.remove(i);
        assert(self@ =~= old(self)@.remove(i as int));
        r
    }

    /// Puts `e` back at `i`.
    pub fn put_back(&mut self, i: usize, e: SessionEntry)
        requires
            i <= old(self)@.len(),
        ensures
            final(self)@ == old(self)@.insert(i as int, e@),
    {
        self.entries.insert(i, e);
        assert(self@ =~= old(self)@.insert(i as int, e@));
    }

    /// The flows of the table, in its order.
    pub fn flows(&self) -> (r: Vec<FlowKey>)
        ensures
            r@.len() == self@.len(),
            forall|i: int| 0 <= i < r@.len() ==> r@[i] == #[trigger] self@[i].key,
    {
        let mut r: Vec<FlowKey> = Vec::new();
        let mut i: usize = 0;
        while i < self.entries.len()
            invariant
                i <= self@.len(),
                r@.len() == i,
                forall|j: int| 0 <= j < i ==> r@[j] == #[trigger] self@[j].key,
            decreases self@.len() - i,
        {
            r.push(self.entries[i].key);
            i = i + 1;
        }
        r
    }
}

} // verus!
