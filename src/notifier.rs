//! The fan-out point: every broadcast payload goes to each live subscription,
//! each of which buffers a bounded number of payloads.
use vstd::prelude::*;

verus! {

/// One subscription as the notifier sees it: its id and what it has not yet
/// received, oldest first.
pub struct SubView {
    pub id: u64,
    pub buffer: Seq<Seq<char>>,
}

/// A buffer takes every payload; a full one first drops its oldest, so that
/// it always holds the most recent ones. With no room at all nothing is kept.
pub open spec fn deliver(b: Seq<Seq<char>>, cap: nat, t: Seq<char>) -> Seq<Seq<char>> {
    if b.len() < cap {
        b.push(t)
    } else if cap == 0 {
        b
    } else {
        b.drop_first().push(t)
    }
}

/// A buffer after the payloads `m` have been offered to it in order.
pub open spec fn fill(b: Seq<Seq<char>>, cap: nat, m: Seq<Seq<char>>) -> Seq<Seq<char>>
    decreases m.len(),
{
    if m.len() == 0 {
        b
    } else {
        deliver(fill(b, cap, m.drop_last()), cap, m.last())
    }
}

/// The subscriptions after one broadcast of `t`.
pub open spec fn broadcast_spec(subs: Seq<SubView>, cap: nat, t: Seq<char>) -> Seq<SubView> {
    subs.map_values(|s: SubView| SubView { id: s.id, buffer: deliver(s.buffer, cap, t) })
}

/// The subscriptions after broadcasting each payload of `m` in order.
pub open spec fn broadcast_all(subs: Seq<SubView>, cap: nat, m: Seq<Seq<char>>) -> Seq<SubView>
    decreases m.len(),
{
    if m.len() == 0 {
        subs
    } else {
        broadcast_spec(broadcast_all(subs, cap, m.drop_last()), cap, m.last())
    }
}

/// Whether some subscription has this id.
pub open spec fn has_sub(subs: Seq<SubView>, id: u64) -> bool {
    exists|k: int| 0 <= k < subs.len() && subs[k].id == id
}

/// The position of the subscription with this id.
pub open spec fn sub_index(subs: Seq<SubView>, id: u64) -> int {
    choose|k: int| 0 <= k < subs.len() && subs[k].id == id
}

/// Broadcasting a sequence of payloads treats each subscription on its own:
/// its buffer becomes what `fill` makes of its own buffer, whatever the others
/// hold.
pub proof fn lemma_broadcast_all_at(subs: Seq<SubView>, cap: nat, m: Seq<Seq<char>>, i: int)
    requires
        0 <= i < subs.len(),
    ensures
        broadcast_all(subs, cap, m).len() == subs.len(),
        broadcast_all(subs, cap, m)[i] == (SubView { id: subs[i].id, buffer: fill(subs[i].buffer, cap, m) }),
    decreases m.len(),
{
    if m.len() > 0 {
        lemma_broadcast_all_at(subs, cap, m.drop_last(), i);
    }
}

/// A buffer with room for all of `m` ends up holding all of `m`, in order.
pub proof fn lemma_fill_room(b: Seq<Seq<char>>, cap: nat, m: Seq<Seq<char>>)
    requires
        b.len() + m.len() <= cap,
    ensures
        fill(b, cap, m) == b + m,
    decreases m.len(),
{
    if m.len() == 0 {
        assert(b + m =~= b);
    } else {
        lemma_fill_room(b, cap, m.drop_last());
        assert(b + m =~= (b + m.drop_last()).push(m.last()));
    }
}

/// The last `cap` elements of `s`, or all of it when it is shorter.
pub open spec fn keep_last(s: Seq<Seq<char>>, cap: nat) -> Seq<Seq<char>> {
    if s.len() > cap {
        s.skip(s.len() - cap)
    } else {
        s
    }
}

/// With room for at least one payload, a buffer holds the most recent `cap`
/// of what it held followed by what was offered.
pub proof fn lemma_fill_keeps_latest(b: Seq<Seq<char>>, cap: nat, m: Seq<Seq<char>>)
    requires
        cap > 0,
        b.len() <= cap,
    ensures
        fill(b, cap, m) == keep_last(b + m, cap),
    decreases m.len(),
{
    if m.len() == 0 {
        assert(b + m =~= b);
    } else {
        lemma_fill_keeps_latest(b, cap, m.drop_last());
        let prev = b + m.drop_last();
        assert(b + m =~= prev.push(m.last()));
        let f = keep_last(prev, cap);
        if f.len() < cap {
            assert(f == prev);
        } else {
            if prev.len() > cap {
                assert(f.drop_first().push(m.last()) =~= prev.push(m.last()).skip(prev.len() + 1 - cap));
            } else {
                assert(f.drop_first().push(m.last()) =~= prev.push(m.last()).skip(1));
            }
        }
    }
}

/// A subscription whose buffer has room for `m` receives every payload of
/// `m`, in broadcast order, after what it already held. A subscription opened
/// before the broadcasts starts empty, so it receives exactly `m`.
pub proof fn law_subscriber_receives_in_order(subs: Seq<SubView>, cap: nat, m: Seq<Seq<char>>, i: int)
    requires
        0 <= i < subs.len(),
        subs[i].buffer.len() + m.len() <= cap,
    ensures
        broadcast_all(subs, cap, m)[i].buffer == subs[i].buffer + m,
        subs[i].buffer.len() == 0 ==> broadcast_all(subs, cap, m)[i].buffer == m,
{
    lemma_broadcast_all_at(subs, cap, m, i);
    lemma_fill_room(subs[i].buffer, cap, m);
    if subs[i].buffer.len() == 0 {
        assert(subs[i].buffer + m =~= m);
    }
}

/// A subscription that is drained after every broadcast receives each
/// payload: whatever the other subscriptions hold, one broadcast leaves
/// exactly that payload in its empty buffer, and each other subscription's
/// buffer depends on its own contents alone.
pub proof fn law_drained_subscriber_gets_each(subs: Seq<SubView>, cap: nat, t: Seq<char>, fast: int)
    requires
        cap > 0,
        0 <= fast < subs.len(),
        subs[fast].buffer.len() == 0,
    ensures
        broadcast_spec(subs, cap, t).len() == subs.len(),
        broadcast_spec(subs, cap, t)[fast].buffer == seq![t],
        forall|k: int| 0 <= k < subs.len() ==> #[trigger] broadcast_spec(subs, cap, t)[k]
            == (SubView { id: subs[k].id, buffer: deliver(subs[k].buffer, cap, t) }),
{
    assert(subs[fast].buffer.push(t) =~= seq![t]);
}

/// A subscription whose buffer is full and never drained does not hold back
/// another with room: the fast one receives every payload of `m` in order,
/// while the slow one stays full and holds the most recent payloads, ending
/// with the last one broadcast.
pub proof fn law_slow_subscriber_isolated(
    subs: Seq<SubView>,
    cap: nat,
    m: Seq<Seq<char>>,
    fast: int,
    slow: int,
)
    requires
        cap > 0,
        0 <= fast < subs.len(),
        0 <= slow < subs.len(),
        subs[fast].buffer.len() + m.len() <= cap,
        subs[slow].buffer.len() == cap,
    ensures
        broadcast_all(subs, cap, m).len() == subs.len(),
        broadcast_all(subs, cap, m)[fast].buffer == subs[fast].buffer + m,
        broadcast_all(subs, cap, m)[slow].buffer == keep_last(subs[slow].buffer + m, cap),
        broadcast_all(subs, cap, m)[slow].buffer.len() == cap,
        m.len() > 0 ==> broadcast_all(subs, cap, m)[slow].buffer.last() == m.last(),
{
    law_subscriber_receives_in_order(subs, cap, m, fast);
    lemma_broadcast_all_at(subs, cap, m, slow);
    lemma_fill_keeps_latest(subs[slow].buffer, cap, m);
    let all = subs[slow].buffer + m;
    if m.len() > 0 {
        assert(all.last() == m.last());
        assert(keep_last(all, cap).last() == all.last());
    }
}

/// Buffer size of the notifier that the process shares.
pub const NOTIFIER_CAPACITY: usize = 1024;

/// The process-wide fan-out point.
pub struct Notifier {
    ids: Vec<u64>,
    buffers: Vec<Vec<String>>,
    next_id: u64,
    cap: usize,
}

impl Notifier {
    pub closed spec fn subs(&self) -> Seq<SubView> {
        Seq::new(
            self.ids@.len(),
            |i: int| SubView { id: self.ids@[i], buffer: self.buffers@[i]@.map_values(|s: String| s@) },
        )
    }

    pub closed spec fn cap(&self) -> nat {
        self.cap as nat
    }

    pub closed spec fn next_id(&self) -> u64 {
        self.next_id
    }

    pub closed spec fn wf(&self) -> bool {
        &&& self.buffers@.len() == self.ids@.len()
        &&& forall|i: int, j: int| 0 <= i < j < self.ids@.len() ==> self.ids@[i] < self.ids@[j]
        &&& forall|i: int| 0 <= i < self.ids@.len() ==> self.ids@[i] < self.next_id
        &&& forall|i: int| 0 <= i < self.buffers@.len() ==> (#[trigger] self.buffers@[i])@.len() <= self.cap
    }

    /// A notifier without subscriptions whose buffers hold up to `cap` payloads.
    pub fn new(cap: usize) -> (r: Notifier)
        ensures
            r.wf(),
            r.subs() == Seq::<SubView>::empty(),
            r.cap() == cap,
            r.next_id() == 0,
    {
        let r = Notifier { ids: Vec::new(), buffers: Vec::new(), next_id: 0, cap };
        assert(r.subs() =~= Seq::<SubView>::empty());
        r
    }

    /// Number of live subscriptions.
    pub fn subscriber_count(&self) -> (r: usize)
        requires
            self.wf(),
        ensures
            r == self.subs().len(),
    {
        self.ids.len()
    }

    /// Opens a subscription with an empty buffer: it sees nothing broadcast
    /// before. `None` once every id has been handed out.
    pub fn subscribe(&mut self) -> (r: Option<u64>)
        requires
            old(self).wf(),
        ensures
            final(self).wf(),
            final(self).cap() == old(self).cap(),
            old(self).next_id() == u64::MAX ==> r is None && final(self).subs() == old(self).subs(),
            old(self).next_id() < u64::MAX ==> r == Some(old(self).next_id())
                && final(self).next_id() == old(self).next_id() + 1
                && !has_sub(old(self).subs(), old(self).next_id())
                && final(self).subs() == old(self).subs().push(
                    SubView { id: old(self).next_id(), buffer: Seq::<Seq<char>>::empty() },
                ),
    {
        if self.next_id == u64::MAX {
            return None;
        }
        let id = self.next_id;
        let ghost before = self.subs();
        self.ids.push(id);
        self.buffers.push(Vec::new());
        self.next_id = id + 1;
        assert(self.subs() =~= before.push(SubView { id, buffer: Seq::<Seq<char>>::empty() })) by {
            assert(self.subs()[before.len() as int].buffer =~= Seq::<Seq<char>>::empty());
            assert forall|k: int| 0 <= k < before.len() implies self.subs()[k] == before[k] by {
                assert(self.subs()[k].buffer =~= before[k].buffer);
            }
        }
        Some(id)
    }

    /// Finds the position of the subscription `id`.
    fn position(&self, id: u64) -> (r: Option<usize>)
        requires
            self.wf(),
        ensures
            r is None ==> !has_sub(self.subs(), id),
            r is Some ==> r->0 < self.subs().len() && r->0 == sub_index(self.subs(), id)
                && self.subs()[r->0 as int].id == id,
    {
        let mut i: usize = 0;
        while i < self.ids.len()
            invariant
                self.wf(),
                i <= self.ids@.len(),
                forall|k: int| 0 <= k < i ==> self.ids@[k] != id,
            decreases self.ids@.len() - i,
        {
            if self.ids[i] == id {
                proof {
                    let k = sub_index(self.subs(), id);
                    assert(self.subs()[i as int].id == id);
                    if k != i {
                        if k < i {
                            assert(self.ids@[k] < self.ids@[i as int]);
                        } else {
                            assert(self.ids@[i as int] < self.ids@[k]);
                        }
                    }
                }
                return Some(i);
            }
            i = i + 1;
        }
        assert(!has_sub(self.subs(), id)) by {
            if has_sub(self.subs(), id) {
                let k = sub_index(self.subs(), id);
                assert(self.subs()[k].id == self.ids@[k]);
            }
        }
        None
    }

    /// Takes the oldest buffered payload of subscription `id`, if it has one.
    pub fn recv(&mut self, id: u64) -> (r: Option<String>)
        requires
            old(self).wf(),
        ensures
            final(self).wf(),
            final(self).cap() == old(self).cap(),
            final(self).next_id() == old(self).next_id(),
            ({
                let subs = old(self).subs();
                let k = sub_index(subs, id);
                if has_sub(subs, id) && subs[k].buffer.len() > 0 {
                    &&& r is Some
                    &&& r->0@ == subs[k].buffer[0]
                    &&& final(self).subs() == subs.update(k, SubView { id, buffer: subs[k].buffer.skip(1) })
                } else {
                    &&& r is None
                    &&& final(self).subs() == subs
                }
            }),
    {
        let pos = self.position(id);
        match pos {
            None => None,
            Some(i) => {
                if self.buffers[i].len() == 0 {
                    return None;
                }
                let ghost before = self.subs();
                let ghost old_buf = self.buffers@[i as int]@;
                let t = self.buffers[i].remove(0);
                proof {
                    let want = before.update(i as int, SubView { id, buffer: before[i as int].buffer.skip(1) });
                    assert(self.subs()[i as int].buffer =~= want[i as int].buffer);
                    assert forall|k: int| 0 <= k < before.len() && k != i implies self.subs()[k] == want[k] by {
                        assert(self.subs()[k].buffer =~= before[k].buffer);
                    }
                    assert(self.subs() =~= want);
                }
                Some(t)
            },
        }
    }

    /// Number of payloads waiting for subscription `id`; zero when there is
    /// no such subscription.
    pub fn pending(&self, id: u64) -> (r: usize)
        requires
            self.wf(),
        ensures
            has_sub(self.subs(), id) ==> r == self.subs()[sub_index(self.subs(), id)].buffer.len(),
            !has_sub(self.subs(), id) ==> r == 0,
    {
        match self.position(id) {
            None => 0,
            Some(i) => self.buffers[i].len(),
        }
    }

    /// Closes subscription `id` and discards its buffer; returns whether it
    /// was open.
    pub fn unsubscribe(&mut self, id: u64) -> (r: bool)
        requires
            old(self).wf(),
        ensures
            final(self).wf(),
            final(self).cap() == old(self).cap(),
            final(self).next_id() == old(self).next_id(),
            r == has_sub(old(self).subs(), id),
            r ==> final(self).subs() == old(self).subs().remove(sub_index(old(self).subs(), id)),
            !r ==> final(self).subs() == old(self).subs(),
    {
        match self.position(id) {
            None => false,
            Some(i) => {
                let ghost before = self.subs();
                self.ids.remove(i);
                self.buffers.remove(i);
                proof {
                    let want = before.remove(i as int);
                    assert forall|k: int| 0 <= k < want.len() implies self.subs()[k] == want[k] by {
                        if k < i {
                            assert(self.subs()[k].buffer =~= before[k].buffer);
                        } else {
                            assert(self.subs()[k].buffer =~= before[k + 1].buffer);
                        }
                    }
                    assert(self.subs() =~= want);
                }
                true
            },
        }
    }

    /// Hands `text` to every subscription; a full buffer drops its oldest
    /// payload to take it. Never waits and never fails.
    pub fn broadcast(&mut self, text: &str)
        requires
            old(self).wf(),
        ensures
            final(self).wf(),
            final(self).subs() == broadcast_spec(old(self).subs(), old(self).cap(), text@),
            final(self).cap() == old(self).cap(),
            final(self).next_id() == old(self).next_id(),
    {
        let n = self.buffers.len();
        let mut i: usize = 0;
        while i < n
            invariant
                self.wf(),
                n == self.ids@.len(),
                i <= n,
                self.ids == old(self).ids,
                self.cap == old(self).cap,
                self.next_id == old(self).next_id,
                forall|k: int| 0 <= k < n ==> (#[trigger] self.subs()[k]) == if k < i {
                    broadcast_spec(old(self).subs(), old(self).cap(), text@)[k]
                } else {
                    old(self).subs()[k]
                },
            decreases n - i,
        {
            let ghost before = self.subs();
            assert(before[i as int] == old(self).subs()[i as int]);
            if self.buffers[i].len() < self.cap {
                let t = text.to_owned();
                let ghost old_buf = self.buffers@[i as int]@;
                self.buffers[i].push(t);
                assert(self.buffers@[i as int]@.map_values(|s: String| s@) =~= old_buf.map_values(|s: String| s@).push(text@));
            } else if self.cap > 0 {
                let t = text.to_owned();
                let ghost old_buf = self.buffers@[i as int]@;
                self.buffers[i].remove(0);
                self.buffers[i].push(t);
                assert(self.buffers@[i as int]@.map_values(|s: String| s@) =~= old_buf.map_values(|s: String| s@).drop_first().push(text@));
            }
            assert(self.subs()[i as int].buffer =~= deliver(before[i as int].buffer, self.cap as nat, text@));
            assert forall|k: int| 0 <= k < n && k != i implies self.subs()[k] == before[k] by {
                assert(self.subs()[k].buffer =~= before[k].buffer);
            }
            assert(self.subs()[i as int] == broadcast_spec(old(self).subs(), old(self).cap(), text@)[i as int]);
            assert forall|k: int| 0 <= k < n implies (#[trigger] self.subs()[k]) == if k < i + 1 {
                broadcast_spec(old(self).subs(), old(self).cap(), text@)[k]
            } else {
                old(self).subs()[k]
            } by {
                if k != i {
                    assert(self.subs()[k] == before[k]);
                }
            }
            i = i + 1;
        }
        assert(self.subs() =~= broadcast_spec(old(self).subs(), old(self).cap(), text@));
    }
}

/// The notifier that the process shares, with room for
/// `NOTIFIER_CAPACITY` payloads per subscription.
pub fn create_notifier() -> (r: Notifier)
    ensures
        r.wf(),
        r.subs() == Seq::<SubView>::empty(),
        r.cap() == NOTIFIER_CAPACITY,
        r.next_id() == 0,
{
    Notifier::new(NOTIFIER_CAPACITY)
}

} // verus!
