//! An in-process event log: append-only, bounded in length, with one consumer
//! group whose members acknowledge entries explicitly.
use vstd::prelude::*;

verus! {

/// What the log holds at one position.
pub struct EntryView {
    pub id: u64,
    pub payload: Seq<u8>,
    pub acked: bool,
}

/// One entry handed to a consumer: its id and its payload bytes.
pub struct Delivery {
    pub id: u64,
    pub payload: Vec<u8>,
}

/// Why a log operation could not be carried out.
#[derive(Debug, PartialEq, Eq, Structural, Clone, Copy)]
pub enum LogError {
    /// The consumer group has not been created yet.
    NoGroup,
    /// Every entry id has been handed out.
    IdsExhausted,
}

/// Ids grow strictly along the log.
pub open spec fn ids_increasing(s: Seq<EntryView>) -> bool {
    forall|i: int, j: int| 0 <= i < j < s.len() ==> s[i].id < s[j].id
}

/// The entries that the group has not acknowledged, in log order.
pub open spec fn unacked(s: Seq<EntryView>) -> Seq<EntryView>
    decreases s.len(),
{
    if s.len() == 0 {
        Seq::empty()
    } else {
        let rest = unacked(s.drop_last());
        if s.last().acked {
            rest
        } else {
            rest.push(s.last())
        }
    }
}

/// The log after the group acknowledges `id`.
pub open spec fn ack_spec(s: Seq<EntryView>, id: u64) -> Seq<EntryView> {
    s.map_values(|e: EntryView| if e.id == id { EntryView { acked: true, ..e } } else { e })
}

/// Only the `cap` most recent entries are retained.
pub open spec fn trim(s: Seq<EntryView>, cap: nat) -> Seq<EntryView> {
    if s.len() > cap {
        s.skip(s.len() - cap)
    } else {
        s
    }
}

/// Whether the log holds an entry with this id that is still unacknowledged.
pub open spec fn has_unacked(s: Seq<EntryView>, id: u64) -> bool {
    exists|i: int| 0 <= i < s.len() && s[i].id == id && !s[i].acked
}

pub proof fn lemma_unacked_concat(a: Seq<EntryView>, b: Seq<EntryView>)
    ensures
        unacked(a + b) == unacked(a) + unacked(b),
    decreases b.len(),
{
    if b.len() == 0 {
        assert(a + b =~= a);
        assert(unacked(b) =~= Seq::<EntryView>::empty());
        assert(unacked(a) + unacked(b) =~= unacked(a));
    } else {
        lemma_unacked_concat(a, b.drop_last());
        assert((a + b).drop_last() =~= a + b.drop_last());
        assert((a + b).last() == b.last());
        if b.last().acked {
        } else {
            assert(unacked(a) + unacked(b) =~= (unacked(a) + unacked(b.drop_last())).push(b.last()));
        }
    }
}

pub proof fn lemma_unacked_members(s: Seq<EntryView>)
    ensures
        unacked(s).len() <= s.len(),
        forall|k: int| 0 <= k < unacked(s).len() ==> !(#[trigger] unacked(s)[k]).acked,
        forall|k: int| 0 <= k < unacked(s).len() ==> s.contains(#[trigger] unacked(s)[k]),
        forall|i: int| 0 <= i < s.len() && !s[i].acked ==> unacked(s).contains(#[trigger] s[i]),
    decreases s.len(),
{
    if s.len() > 0 {
        lemma_unacked_members(s.drop_last());
        let r = unacked(s.drop_last());
        assert forall|k: int| 0 <= k < unacked(s).len() implies s.contains(#[trigger] unacked(s)[k]) by {
            if k < r.len() {
                let j = choose|j: int| 0 <= j < s.drop_last().len() && s.drop_last()[j] == r[k];
                assert(s[j] == r[k]);
            } else {
                assert(s[s.len() - 1] == unacked(s)[k]);
            }
        }
        assert forall|i: int| 0 <= i < s.len() && !s[i].acked implies unacked(s).contains(#[trigger] s[i]) by {
            if i < s.len() - 1 {
                assert(s.drop_last()[i] == s[i]);
                let k = choose|k: int| 0 <= k < r.len() && r[k] == s[i];
                assert(unacked(s)[k] == s[i]);
            } else {
                assert(unacked(s)[unacked(s).len() - 1] == s[i]);
            }
        }
    }
}

/// Acknowledging the first unacknowledged entry removes exactly it from the
/// entries still owed to the group.
pub proof fn lemma_ack_first(s: Seq<EntryView>)
    requires
        ids_increasing(s),
        unacked(s).len() > 0,
    ensures
        unacked(ack_spec(s, unacked(s)[0].id)) == unacked(s).skip(1),
        ids_increasing(ack_spec(s, unacked(s)[0].id)),
    decreases s.len(),
{
    let id = unacked(s)[0].id;
    let p = s.drop_last();
    let x = s.last();
    assert(ack_spec(s, id).drop_last() =~= ack_spec(p, id));
    assert(ids_increasing(p));
    if unacked(p).len() > 0 {
        lemma_ack_first(p);
        assert(unacked(s)[0] == unacked(p)[0]);
        lemma_unacked_members(p);
        let j = choose|j: int| 0 <= j < p.len() && p[j] == unacked(p)[0];
        assert(s[j] == p[j]);
        assert(x.id != id);
        if x.acked {
            assert(unacked(s).skip(1) =~= unacked(p).skip(1));
        } else {
            assert(unacked(s).skip(1) =~= unacked(p).skip(1).push(x));
        }
    } else {
        assert(!x.acked);
        assert(unacked(s) =~= seq![x]);
        assert(id == x.id);
        assert forall|i: int| 0 <= i < p.len() implies #[trigger] p[i].id != id by {
            assert(s[i] == p[i]);
        }
        assert(ack_spec(p, id) =~= p);
        assert(unacked(ack_spec(s, id)) =~= unacked(p));
        assert(unacked(s).skip(1) =~= Seq::<EntryView>::empty());
    }
    assert(ids_increasing(ack_spec(s, id)));
}

/// The log with its single consumer group.
pub struct EventLog {
    ids: Vec<u64>,
    payloads: Vec<Vec<u8>>,
    acked: Vec<bool>,
    next_id: u64,
    cap: usize,
    group: bool,
}

impl EventLog {
    pub closed spec fn entries(&self) -> Seq<EntryView> {
        Seq::new(
            self.ids@.len(),
            |i: int| EntryView { id: self.ids@[i], payload: self.payloads@[i]@, acked: self.acked@[i] },
        )
    }

    pub closed spec fn next_id(&self) -> u64 {
        self.next_id
    }

    pub closed spec fn cap(&self) -> nat {
        self.cap as nat
    }

    pub closed spec fn has_group(&self) -> bool {
        self.group
    }

    pub closed spec fn wf(&self) -> bool {
        &&& self.payloads@.len() == self.ids@.len()
        &&& self.acked@.len() == self.ids@.len()
        &&& self.ids@.len() <= self.cap
        &&& ids_increasing(self.entries())
        &&& forall|i: int| 0 <= i < self.ids@.len() ==> self.ids@[i] < self.next_id
        &&& self.next_id >= 1
    }

    /// An empty log that retains at most `cap` entries, without a consumer group.
    pub fn new(cap: usize) -> (r: EventLog)
        ensures
            r.wf(),
            r.entries() == Seq::<EntryView>::empty(),
            r.cap() == cap,
            r.next_id() == 1,
            !r.has_group(),
    {
        let r = EventLog { ids: Vec::new(), payloads: Vec::new(), acked: Vec::new(), next_id: 1, cap, group: false };
        assert(r.entries() =~= Seq::<EntryView>::empty());
        r
    }
    pub proof fn lemma_ids_increasing(&self)
        requires
            self.wf(),
        ensures
            ids_increasing(self.entries()),
    {
    }

    /// Creates the consumer group if it is absent; calling it again changes nothing.
    pub fn ensure_group(&mut self)
        requires
            old(self).wf(),
        ensures
            final(self).wf(),
            final(self).has_group(),
            final(self).entries() == old(self).entries(),
            final(self).next_id() == old(self).next_id(),
            final(self).cap() == old(self).cap(),
    {
        self.group = true;
    }

    /// Whether the consumer group exists.
    pub fn group_exists(&self) -> (r: bool)
        ensures
            r == self.has_group(),
    {
        self.group
    }

    /// Number of entries retained.
    pub fn len(&self) -> (r: usize)
        requires
            self.wf(),
        ensures
            r == self.entries().len(),
    {
        self.ids.len()
    }

    /// Appends `payload` under a fresh id and drops the oldest entry when the
    /// log then holds more than its cap.
    pub fn append(&mut self, payload: Vec<u8>) -> (r: Result<u64, LogError>)
        requires
            old(self).wf(),
        ensures
            final(self).wf(),
            final(self).cap() == old(self).cap(),
            final(self).has_group() == old(self).has_group(),
            old(self).next_id() == u64::MAX ==> r == Err::<u64, LogError>(LogError::IdsExhausted)
                && final(self).entries() == old(self).entries()
                && final(self).next_id() == old(self).next_id(),
            old(self).next_id() < u64::MAX ==> r == Ok::<u64, LogError>(old(self).next_id())
                && final(self).next_id() == old(self).next_id() + 1
                && final(self).entries() == trim(
                    old(self).entries().push(EntryView { id: old(self).next_id(), payload: payload@, acked: false }),
                    old(self).cap(),
                ),
    {
        if self.next_id == u64::MAX {
            return Err(LogError::IdsExhausted);
        }
        let id = self.next_id;
        let ghost pushed = self.entries().push(EntryView { id, payload: payload@, acked: false });
        self.ids.push(id);
        self.payloads.push(payload);
        self.acked.push(false);
        self.next_id = id + 1;
        assert(self.entries() =~= pushed);
        if self.ids.len() > self.cap {
            self.ids.remove(0);
            self.payloads.remove(0);
            self.acked.remove(0);
            assert(self.entries() =~= pushed.skip(1));
        }
        assert(self.entries() =~= trim(pushed, self.cap as nat));
        Ok(id)
    }

    /// Hands out, in log order, the first `max_count` entries that the group
    /// has not acknowledged.
    pub fn read_group(&self, max_count: usize) -> (r: Result<Vec<Delivery>, LogError>)
        requires
            self.wf(),
        ensures
            !self.has_group() ==> r == Err::<Vec<Delivery>, LogError>(LogError::NoGroup),
            self.has_group() ==> r is Ok && ({
                let b = r->Ok_0@;
                let u = unacked(self.entries());
                &&& b.len() == if u.len() < max_count { u.len() } else { max_count as nat }
                &&& forall|k: int| #![trigger b[k]] 0 <= k < b.len() ==> b[k].id == u[k].id && b[k].payload@ == u[k].payload
            }),
    {
        if !self.group {
            return Err(LogError::NoGroup);
        }
        let ghost s = self.entries();
        let mut out: Vec<Delivery> = Vec::new();
        let mut i: usize = 0;
        while i < self.ids.len() && out.len() < max_count
            invariant
                self.wf(),
                s == self.entries(),
                i <= s.len(),
                out@.len() == unacked(s.take(i as int)).len(),
                out@.len() <= max_count,
                forall|k: int| 0 <= k < out@.len() ==> #[trigger] out@[k].id == unacked(s.take(i as int))[k].id
                    && out@[k].payload@ == unacked(s.take(i as int))[k].payload,
            decreases s.len() - i,
        {
            assert(s.take(i as int + 1).drop_last() =~= s.take(i as int));
            assert(s.take(i as int + 1).last() == s[i as int]);
            if !self.acked[i] {
                let p = self.payloads[i].clone();
                proof {
                    assert(p@ =~= self.payloads@[i as int]@);
                }
                out.push(Delivery { id: self.ids[i], payload: p });
            }
            i = i + 1;
        }
        proof {
            assert(s =~= s.take(i as int) + s.skip(i as int));
            lemma_unacked_concat(s.take(i as int), s.skip(i as int));
            lemma_unacked_members(s.skip(i as int));
            let u = unacked(s);
            let a = unacked(s.take(i as int));
            if i == s.len() {
                assert(s.skip(i as int) =~= Seq::<EntryView>::empty());
                assert(u =~= a);
            }
            assert forall|k: int| 0 <= k < a.len() implies u[k] == a[k] by {
                assert(u == a + unacked(s.skip(i as int)));
            }
            assert(out@.len() == if u.len() < max_count { u.len() } else { max_count as nat });
            assert forall|k: int| #![trigger out@[k]] 0 <= k < out@.len() implies out@[k].id == u[k].id
                && out@[k].payload@ == u[k].payload by {
                assert(out@[k].id == a[k].id);
            }
        }
        Ok(out)
    }

    /// The group acknowledges `id`; returns whether that entry was retained and
    /// not yet acknowledged.
    pub fn ack(&mut self, id: u64) -> (r: bool)
        requires
            old(self).wf(),
        ensures
            final(self).wf(),
            final(self).entries() == ack_spec(old(self).entries(), id),
            final(self).next_id() == old(self).next_id(),
            final(self).cap() == old(self).cap(),
            final(self).has_group() == old(self).has_group(),
            r == has_unacked(old(self).entries(), id),
    {
        let ghost s = self.entries();
        let mut i: usize = 0;
        while i < self.ids.len()
            invariant
                self.wf(),
                s == self.entries(),
                i <= s.len(),
                forall|k: int| 0 <= k < i ==> s[k].id != id,
                s == old(self).entries(),
                self.next_id == old(self).next_id,
                self.cap == old(self).cap,
                self.group == old(self).group,
            decreases s.len() - i,
        {
            if self.ids[i] == id {
                let was = self.acked[i];
                self.acked.set(i, true);
                proof {
                    assert forall|k: int| 0 <= k < s.len() && k != i implies s[k].id != id by {
                        if k < i {
                        } else {
                            assert(s[i as int].id < s[k].id);
                        }
                    }
                    assert(self.entries() =~= ack_spec(s, id));
                    assert(s[i as int].id == id && s[i as int].acked == was);
                    assert(ids_increasing(self.entries())) by {
                        assert forall|a: int, b: int| 0 <= a < b < self.entries().len() implies
                            self.entries()[a].id < self.entries()[b].id by {
                            assert(s[a].id < s[b].id);
                        }
                    }
                }
                return !was;
            }
            i = i + 1;
        }
        assert(self.entries() =~= ack_spec(s, id));
        assert(!has_unacked(s, id));
        false
    }
}

} // verus!
