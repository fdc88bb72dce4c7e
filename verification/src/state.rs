//! Persistent state of the protocol core: the per-channel result cache and
//! the single-slot pending-channel registry.
//!
//! The host's storage substrate persists these between invocations; within an
//! invocation they are plain values, mutated in place.  The result cache keeps
//! one entry per channel id, overwritten on every new acknowledgment: last
//! write wins, no history is retained and nothing is ever evicted.

use vstd::prelude::*;

verus! {

/// Compares two byte strings for equality.
pub fn bytes_eq(a: &Vec<u8>, b: &Vec<u8>) -> (r: bool)
    ensures
        r == (a@ == b@),
{
    if a.len() != b.len() {
        proof {
            assert(a@.len() != b@.len());
        }
        return false;
    }
    let mut i: usize = 0;
    while i < a.len()
        invariant
            i <= a@.len(),
            a@.len() == b@.len(),
            forall|k: int| 0 <= k < i ==> a@[k] == b@[k],
        decreases a@.len() - i,
    {
        if a[i] != b[i] {
            return false;
        }
        i += 1;
    }
    proof {
        assert(a@ =~= b@);
    }
    true
}

/// Whether `pat` stands at position `pos` of `s`.
pub fn match_at(s: &Vec<u8>, pos: usize, pat: &Vec<u8>) -> (r: bool)
    requires
        pos <= s@.len(),
    ensures
        r == (pos + pat@.len() <= s@.len() && s@.subrange(pos as int, pos + pat@.len()) == pat@),
{
    if s.len() - pos < pat.len() {
        return false;
    }
    let mut x: usize = 0;
    while x < pat.len()
        invariant
            pos + pat@.len() <= s@.len(),
            s@.len() <= usize::MAX,
            x <= pat@.len(),
            forall|t: int| 0 <= t < x ==> s@[pos + t] == pat@[t],
        decreases pat@.len() - x,
    {
        if s[pos + x] != pat[x] {
            proof {
                assert(s@.subrange(pos as int, pos + pat@.len())[x as int] == s@[pos + x]);
            }
            return false;
        }
        x += 1;
    }
    proof {
        assert(s@.subrange(pos as int, pos + pat@.len()) =~= pat@);
    }
    true
}

/// Copies the bytes of `s` between `a` and `b`.
pub fn copy_range(s: &Vec<u8>, a: usize, b: usize) -> (r: Vec<u8>)
    requires
        a <= b <= s@.len(),
    ensures
        r@ == s@.subrange(a as int, b as int),
{
    let mut r: Vec<u8> = Vec::new();
    let mut x: usize = a;
    while x < b
        invariant
            a <= x <= b <= s@.len(),
            r@ == s@.subrange(a as int, x as int),
        decreases b - x,
    {
        r.push(s[x]);
        proof {
            assert(s@.subrange(a as int, x + 1 as int) =~= s@.subrange(a as int, x as int).push(
                s@[x as int],
            ));
        }
        x += 1;
    }
    r
}

/// The most recent query outcome seen on one channel: when the host reported
/// it, and the acknowledgment event exactly as delivered.
#[derive(Debug)]
pub struct IbcQueryResultResponse {
    /// The block time at which the acknowledgment arrived.
    pub last_update_time: u64,
    /// The acknowledgment event, verbatim: it carries the acknowledgment
    /// payload together with a reference to the packet it answers.
    pub response: Vec<u8>,
}

/// The mathematical value of one cache entry.
pub struct ResultView {
    pub last_update_time: u64,
    pub response: Seq<u8>,
}

impl View for IbcQueryResultResponse {
    type V = ResultView;

    open spec fn view(&self) -> ResultView {
        ResultView { last_update_time: self.last_update_time, response: self.response@ }
    }
}

/// The per-channel cache of the most recent acknowledgment, a map from
/// channel id to the latest entry.
pub struct ResultStore {
    entries: Vec<(Vec<u8>, IbcQueryResultResponse)>,
}

/// The map described by a sequence of entries; later entries win.
pub open spec fn entries_map(s: Seq<(Vec<u8>, IbcQueryResultResponse)>) -> Map<
    Seq<u8>,
    ResultView,
>
    decreases s.len(),
{
    if s.len() == 0 {
        Map::empty()
    } else {
        entries_map(s.drop_last()).insert(s.last().0@, s.last().1@)
    }
}

impl ResultStore {
    /// The channel ids are pairwise distinct, so each key names one entry.
    pub closed spec fn wf(&self) -> bool {
        forall|i: int, j: int|
            0 <= i < j < self.entries@.len() ==> self.entries@[i].0@ != self.entries@[j].0@
    }

    pub closed spec fn view(&self) -> Map<Seq<u8>, ResultView> {
        entries_map(self.entries@)
    }

    /// An empty cache.
    pub fn new() -> (s: ResultStore)
        ensures
            s.wf(),
            s@ == Map::<Seq<u8>, ResultView>::empty(),
    {
        ResultStore { entries: Vec::new() }
    }

    /// Writes the entry for `channel_id`, overwriting any prior one.
    pub fn save(&mut self, channel_id: &Vec<u8>, result: IbcQueryResultResponse)
        requires
            old(self).wf(),
        ensures
            final(self).wf(),
            final(self)@ == old(self)@.insert(channel_id@, result@),
    {
        let ghost entries0 = self.entries@;
        let mut i: usize = 0;
        while i < self.entries.len()
            invariant
                self.entries@ == entries0,
                entries0 == old(self).entries@,
                i <= entries0.len(),
                forall|k: int| 0 <= k < i ==> entries0[k].0@ != channel_id@,
                forall|p: int, q: int|
                    0 <= p < q < entries0.len() ==> entries0[p].0@ != entries0[q].0@,
            decreases entries0.len() - i,
        {
            if bytes_eq(&self.entries[i].0, channel_id) {
                self.entries[i].1 = result;
                proof {
                    assert(forall|k: int|
                        0 <= k < entries0.len() && k != i ==> entries0[k].0@ != channel_id@);
                    assert(forall|k: int|
                        0 <= k < entries0.len() ==> self.entries@[k].0 == entries0[k].0);
                    lemma_entries_map_update(entries0, self.entries@, i as int, channel_id@);
                    assert(self.entries@[i as int].1@ == result@);
                    assert(entries_map(self.entries@) == entries_map(entries0).insert(
                        channel_id@,
                        result@,
                    ));
                }
                return ;
            }
            i += 1;
        }
        let key = clone_bytes(channel_id);
        self.entries.push((key, result));
        proof {
            assert(self.entries@.drop_last() =~= entries0);
            assert(forall|k: int| 0 <= k < entries0.len() ==> self.entries@[k] == entries0[k]);
            assert(final(self)@ =~= old(self)@.insert(channel_id@, result@));
        }
    }

    /// Returns the entry for `channel_id`, or `None` where no acknowledgment
    /// has ever arrived on that channel.
    pub fn load(&self, channel_id: &Vec<u8>) -> (r: Option<&IbcQueryResultResponse>)
        requires
            self.wf(),
        ensures
            match r {
                Some(v) => self@.contains_key(channel_id@) && self@[channel_id@] == v@,
                None => !self@.contains_key(channel_id@),
            },
    {
        let mut i: usize = 0;
        while i < self.entries.len()
            invariant
                self.wf(),
                i <= self.entries@.len(),
                forall|k: int| 0 <= k < i ==> self.entries@[k].0@ != channel_id@,
            decreases self.entries@.len() - i,
        {
            if bytes_eq(&self.entries[i].0, channel_id) {
                proof {
                    lemma_entries_map_get(self.entries@, i as int);
                }
                return Some(&self.entries[i].1);
            }
            i += 1;
        }
        proof {
            lemma_entries_map_absent(self.entries@, channel_id@);
        }
        None
    }
}

/// Copies a byte string.
pub fn clone_bytes(a: &Vec<u8>) -> (r: Vec<u8>)
    ensures
        r@ == a@,
{
    let mut r: Vec<u8> = Vec::new();
    let mut i: usize = 0;
    while i < a.len()
        invariant
            i <= a@.len(),
            r@ == a@.take(i as int),
        decreases a@.len() - i,
    {
        r.push(a[i]);
        proof {
            assert(a@.take(i + 1 as int) =~= a@.take(i as int).push(a@[i as int]));
        }
        i += 1;
    }
    proof {
        assert(a@.take(a@.len() as int) =~= a@);
    }
    r
}

/// In a well-formed entry list, the map holds exactly the listed keys, each
/// bound to its entry's value.
proof fn lemma_entries_map_get(s: Seq<(Vec<u8>, IbcQueryResultResponse)>, i: int)
    requires
        0 <= i < s.len(),
        forall|p: int, q: int| 0 <= p < q < s.len() ==> s[p].0@ != s[q].0@,
    ensures
        entries_map(s).contains_key(s[i].0@),
        entries_map(s)[s[i].0@] == s[i].1@,
    decreases s.len(),
{
    if i == s.len() - 1 {
    } else {
        lemma_entries_map_get(s.drop_last(), i);
    }
}

/// A key that no entry carries is absent from the map.
proof fn lemma_entries_map_absent(s: Seq<(Vec<u8>, IbcQueryResultResponse)>, key: Seq<u8>)
    requires
        forall|k: int| 0 <= k < s.len() ==> s[k].0@ != key,
    ensures
        !entries_map(s).contains_key(key),
    decreases s.len(),
{
    if s.len() > 0 {
        lemma_entries_map_absent(s.drop_last(), key);
    }
}

/// Replacing the value at position `i` — the only position carrying its key —
/// makes the same map as inserting that key.
proof fn lemma_entries_map_update(
    s0: Seq<(Vec<u8>, IbcQueryResultResponse)>,
    s1: Seq<(Vec<u8>, IbcQueryResultResponse)>,
    i: int,
    key: Seq<u8>,
)
    requires
        0 <= i < s0.len(),
        s1.len() == s0.len(),
        s0[i].0@ == key,
        s1[i].0@ == key,
        forall|k: int| 0 <= k < s0.len() && k != i ==> s1[k] == s0[k],
        forall|k: int| 0 <= k < s0.len() && k != i ==> s0[k].0@ != key,
    ensures
        entries_map(s1) == entries_map(s0).insert(key, s1[i].1@),
    decreases s0.len(),
{
    if i == s0.len() - 1 {
        assert(s1.drop_last() =~= s0.drop_last());
        assert(entries_map(s1) =~= entries_map(s0).insert(key, s1[i].1@));
    } else {
        lemma_entries_map_update(s0.drop_last(), s1.drop_last(), i, key);
        assert(s1.last() == s0.last());
        assert(entries_map(s1) =~= entries_map(s0).insert(key, s1[i].1@));
    }
}

/// Calling the cache write twice for one channel leaves exactly the second
/// value: the write is idempotent by overwrite, never an append.
pub proof fn lemma_save_overwrites(
    m: Map<Seq<u8>, ResultView>,
    channel_id: Seq<u8>,
    first: ResultView,
    second: ResultView,
)
    ensures
        m.insert(channel_id, first).insert(channel_id, second) == m.insert(channel_id, second),
{
    assert(m.insert(channel_id, first).insert(channel_id, second) =~= m.insert(
        channel_id,
        second,
    ));
}

/// The transient marker of a channel establishment in flight: a single slot
/// holding the id recorded at connect time, taken by follow-up logic.
pub struct PendingChannel {
    slot: Option<Vec<u8>>,
}

impl PendingChannel {
    pub closed spec fn view(&self) -> Option<Seq<u8>> {
        match self.slot {
            Some(ref v) => Some(v@),
            None => None,
        }
    }

    /// An empty registry.
    pub fn new() -> (s: PendingChannel)
        ensures
            s@ == Option::<Seq<u8>>::None,
    {
        PendingChannel { slot: None }
    }

    /// Records `channel_id`, overwriting any previous marker: at most one
    /// pending record is outstanding.
    pub fn save(&mut self, channel_id: &Vec<u8>)
        ensures
            final(self)@ == Some(channel_id@),
    {
        self.slot = Some(clone_bytes(channel_id));
    }

    /// Takes the marker out, leaving the slot empty.
    pub fn take(&mut self) -> (r: Option<Vec<u8>>)
        ensures
            final(self)@ == Option::<Seq<u8>>::None,
            match r {
                Some(v) => old(self)@ == Some(v@),
                None => old(self)@ == Option::<Seq<u8>>::None,
            },
    {
        let r = self.slot.take();
        r
    }
}

} // verus!
