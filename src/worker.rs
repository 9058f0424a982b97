//! The consumer worker: it reads what the group has not acknowledged, hands
//! each payload that decodes to the notifier, and acknowledges every entry it
//! read, in log order.
use vstd::prelude::*;
use crate::log::{ack_spec, ids_increasing, lemma_ack_first, unacked, EntryView, EventLog, LogError};
use crate::notifier::{broadcast_all, broadcast_spec, Notifier, SubView};
use crate::text::{utf8_decode, utf8_text};

verus! {

/// The payload bytes of each entry, in order.
pub open spec fn payloads(s: Seq<EntryView>) -> Seq<Seq<u8>> {
    s.map_values(|e: EntryView| e.payload)
}

/// The texts that reach the notifier from these payloads: those that decode,
/// in order; the others are skipped.
pub open spec fn forwarded(ps: Seq<Seq<u8>>) -> Seq<Seq<char>>
    decreases ps.len(),
{
    if ps.len() == 0 {
        Seq::empty()
    } else {
        let rest = forwarded(ps.drop_last());
        match utf8_decode(ps.last()) {
            Some(t) => rest.push(t),
            None => rest,
        }
    }
}

/// The log changed only by acknowledgements: the same entries, with every
/// acknowledged one still acknowledged.
pub open spec fn only_acks(before: Seq<EntryView>, after: Seq<EntryView>) -> bool {
    &&& after.len() == before.len()
    &&& forall|i: int| #![trigger after[i]] 0 <= i < before.len() ==> after[i].id == before[i].id
        && after[i].payload == before[i].payload && (before[i].acked ==> after[i].acked)
}

pub proof fn lemma_forwarded_concat(a: Seq<Seq<u8>>, b: Seq<Seq<u8>>)
    ensures
        forwarded(a + b) == forwarded(a) + forwarded(b),
    decreases b.len(),
{
    if b.len() == 0 {
        assert(a + b =~= a);
        assert(forwarded(a) + forwarded(b) =~= forwarded(a));
    } else {
        lemma_forwarded_concat(a, b.drop_last());
        assert((a + b).drop_last() =~= a + b.drop_last());
        assert((a + b).last() == b.last());
        match utf8_decode(b.last()) {
            Some(t) => {
                assert(forwarded(a) + forwarded(b) =~= (forwarded(a) + forwarded(b.drop_last())).push(t));
            },
            None => {},
        }
    }
}

pub proof fn lemma_broadcast_all_concat(subs: Seq<SubView>, cap: nat, a: Seq<Seq<char>>, b: Seq<Seq<char>>)
    ensures
        broadcast_all(subs, cap, a + b) == broadcast_all(broadcast_all(subs, cap, a), cap, b),
    decreases b.len(),
{
    if b.len() == 0 {
        assert(a + b =~= a);
    } else {
        lemma_broadcast_all_concat(subs, cap, a, b.drop_last());
        assert((a + b).drop_last() =~= a + b.drop_last());
        assert((a + b).last() == b.last());
    }
}

proof fn lemma_only_acks_step(s0: Seq<EntryView>, s: Seq<EntryView>, id: u64)
    requires
        only_acks(s0, s),
    ensures
        only_acks(s0, ack_spec(s, id)),
{
    let t = ack_spec(s, id);
    assert forall|i: int| #![trigger t[i]] 0 <= i < s0.len() implies t[i].id == s0[i].id
        && t[i].payload == s0[i].payload && (s0[i].acked ==> t[i].acked) by {
        assert(s[i].id == s0[i].id);
    }
}

/// The log after the group acknowledges, in order, the first `k` entries it
/// had not acknowledged.
pub open spec fn ack_prefix(s: Seq<EntryView>, k: nat) -> Seq<EntryView>
    decreases k,
{
    if k == 0 {
        s
    } else {
        ack_spec(ack_prefix(s, (k - 1) as nat), unacked(s)[k - 1].id)
    }
}

/// A worker that stops after forwarding and acknowledging the first `k`
/// entries of what it read leaves owed to the group exactly the entries after
/// those `k`, in log order: the next run reads them again and none of the
/// first `k`.
pub proof fn law_restart_resumes_after_acked(s: Seq<EntryView>, k: nat)
    requires
        ids_increasing(s),
        k <= unacked(s).len(),
    ensures
        unacked(ack_prefix(s, k)) == unacked(s).skip(k as int),
        ids_increasing(ack_prefix(s, k)),
    decreases k,
{
    if k == 0 {
        assert(unacked(s).skip(0) =~= unacked(s));
    } else {
        law_restart_resumes_after_acked(s, (k - 1) as nat);
        let p = ack_prefix(s, (k - 1) as nat);
        assert(unacked(p)[0] == unacked(s)[k - 1]);
        lemma_ack_first(p);
        assert(unacked(s).skip(k - 1).skip(1) =~= unacked(s).skip(k as int));
    }
}

/// A payload that does not decode drops out of what is forwarded and holds
/// back nothing after it.
pub proof fn law_malformed_payload_skipped(before: Seq<Seq<u8>>, bad: Seq<u8>, after: Seq<Seq<u8>>)
    requires
        utf8_decode(bad) is None,
    ensures
        forwarded(before.push(bad) + after) == forwarded(before) + forwarded(after),
{
    lemma_forwarded_concat(before.push(bad), after);
    assert(before.push(bad).drop_last() =~= before);
}

/// Hands `payload` to the notifier when it decodes as UTF-8; returns whether
/// it did. A payload that does not decode is dropped here.
pub fn forward(notifier: &mut Notifier, payload: &Vec<u8>) -> (r: bool)
    requires
        old(notifier).wf(),
    ensures
        final(notifier).wf(),
        final(notifier).cap() == old(notifier).cap(),
        final(notifier).next_id() == old(notifier).next_id(),
        r == utf8_decode(payload@).is_some(),
        r ==> final(notifier).subs() == broadcast_spec(old(notifier).subs(), old(notifier).cap(), utf8_decode(payload@).unwrap()),
        !r ==> final(notifier).subs() == old(notifier).subs(),
{
    match utf8_text(payload) {
        Some(text) => {
            notifier.broadcast(text.as_str());
            true
        },
        None => false,
    }
}

/// One pass of the worker: reads up to `max_count` entries that the group
/// has not acknowledged, and for each in log order forwards its payload and
/// then acknowledges it, whether or not the payload decoded. Returns how many
/// entries it handled.
pub fn drain_batch(log: &mut EventLog, notifier: &mut Notifier, max_count: usize) -> (r: Result<usize, LogError>)
    requires
        old(log).wf(),
        old(notifier).wf(),
    ensures
        final(log).wf(),
        final(notifier).wf(),
        final(log).next_id() == old(log).next_id(),
        final(log).cap() == old(log).cap(),
        final(log).has_group() == old(log).has_group(),
        final(notifier).cap() == old(notifier).cap(),
        final(notifier).next_id() == old(notifier).next_id(),
        !old(log).has_group() ==> r == Err::<usize, LogError>(LogError::NoGroup)
            && final(log).entries() == old(log).entries()
            && final(notifier).subs() == old(notifier).subs(),
        old(log).has_group() ==> r is Ok && ({
            let u = unacked(old(log).entries());
            let n = r->Ok_0 as int;
            &&& n == if u.len() < max_count { u.len() as int } else { max_count as int }
            &&& unacked(final(log).entries()) == u.skip(n)
            &&& only_acks(old(log).entries(), final(log).entries())
            &&& final(notifier).subs() == broadcast_all(
                old(notifier).subs(),
                old(notifier).cap(),
                forwarded(payloads(u.take(n))),
            )
        }),
{
    let batch = match log.read_group(max_count) {
        Ok(b) => b,
        Err(e) => {
            return Err(e);
        },
    };
    let ghost u = unacked(log.entries());
    let ghost e0 = log.entries();
    let ghost subs0 = notifier.subs();
    let ghost cap = notifier.cap();
    let n = batch.len();
    assert(payloads(u.take(0)) =~= Seq::<Seq<u8>>::empty());
    assert(u.skip(0) =~= u);
    let mut j: usize = 0;
    while j < n
        invariant
            log.wf(),
            notifier.wf(),
            n == batch@.len(),
            n <= u.len(),
            j <= n,
            forall|k: int| #![trigger batch@[k]] 0 <= k < n ==> batch@[k].id == u[k].id && batch@[k].payload@ == u[k].payload,
            unacked(log.entries()) == u.skip(j as int),
            only_acks(e0, log.entries()),
            notifier.subs() == broadcast_all(subs0, cap, forwarded(payloads(u.take(j as int)))),
            log.next_id() == old(log).next_id(),
            log.cap() == old(log).cap(),
            log.has_group() == old(log).has_group(),
            notifier.cap() == cap,
            notifier.next_id() == old(notifier).next_id(),
        decreases n - j,
    {
        let ghost m = forwarded(payloads(u.take(j as int)));
        let ghost before = log.entries();
        assert(batch@[j as int].id == u[j as int].id);
        assert(unacked(before)[0] == u[j as int]);
        let ghost subs_before = notifier.subs();
        forward(notifier, &batch[j].payload);
        proof {
            let p1 = payloads(u.take(j as int + 1));
            assert(p1 =~= payloads(u.take(j as int)).push(u[j as int].payload));
            assert(p1.drop_last() =~= payloads(u.take(j as int)));
            assert(p1.last() == u[j as int].payload);
            match utf8_decode(u[j as int].payload) {
                Some(t) => {
                    assert(forwarded(p1) == m.push(t));
                    assert(m.push(t).drop_last() =~= m);
                    assert(broadcast_all(subs0, cap, m.push(t)) == broadcast_spec(subs_before, cap, t));
                },
                None => {
                    assert(forwarded(p1) == m);
                },
            }
        }
        proof {
            log.lemma_ids_increasing();
        }
        log.ack(batch[j].id);
        proof {
            lemma_ack_first(before);
            lemma_only_acks_step(e0, before, u[j as int].id);
            assert(u.skip(j as int).skip(1) =~= u.skip(j as int + 1));
        }
        j = j + 1;
    }
    Ok(n)
}

/// Starts the worker and drains the log until a read comes back empty: the
/// consumer group is created if it is absent, each read takes at most
/// `max_count` entries, and with `max_count > 0` every entry is then
/// acknowledged and the notifier has been handed the payloads that decode, in
/// log order. A long-running consumer calls this again whenever the log may
/// have grown.
pub fn run(log: &mut EventLog, notifier: &mut Notifier, max_count: usize)
    requires
        old(log).wf(),
        old(notifier).wf(),
    ensures
        final(log).wf(),
        final(notifier).wf(),
        final(log).next_id() == old(log).next_id(),
        final(log).cap() == old(log).cap(),
        final(log).has_group(),
        final(notifier).cap() == old(notifier).cap(),
        final(notifier).next_id() == old(notifier).next_id(),
        only_acks(old(log).entries(), final(log).entries()),
        ({
            let u = unacked(old(log).entries());
            if max_count > 0 {
                &&& unacked(final(log).entries()) == Seq::<EntryView>::empty()
                &&& final(notifier).subs() == broadcast_all(
                    old(notifier).subs(),
                    old(notifier).cap(),
                    forwarded(payloads(u)),
                )
            } else {
                &&& final(log).entries() == old(log).entries()
                &&& final(notifier).subs() == old(notifier).subs()
            }
        }),
{
    log.ensure_group();
    let ghost u = unacked(log.entries());
    let ghost e0 = log.entries();
    let ghost subs0 = notifier.subs();
    let ghost cap = notifier.cap();
    if max_count == 0 {
        return;
    }
    let ghost mut c: int = 0;
    assert(u.take(0) =~= Seq::<EntryView>::empty());
    assert(payloads(u.take(0)) =~= Seq::<Seq<u8>>::empty());
    assert(u.skip(0) =~= u);
    assert(only_acks(e0, e0));
    loop
        invariant
            log.wf(),
            notifier.wf(),
            log.has_group(),
            0 <= c <= u.len(),
            unacked(log.entries()) == u.skip(c),
            only_acks(e0, log.entries()),
            notifier.subs() == broadcast_all(subs0, cap, forwarded(payloads(u.take(c)))),
            log.next_id() == old(log).next_id(),
            log.cap() == old(log).cap(),
            notifier.cap() == cap,
            notifier.next_id() == old(notifier).next_id(),
            max_count > 0,
            cap == old(notifier).cap(),
            subs0 == old(notifier).subs(),
            e0 == old(log).entries(),
            u == unacked(old(log).entries()),
        decreases u.len() - c,
    {
        let ghost e_before = log.entries();
        let ghost s_before = notifier.subs();
        let n = match drain_batch(log, notifier, max_count) {
            Ok(n) => n,
            Err(_) => {
                return;
            },
        };
        proof {
            let v = u.skip(c);
            let a = payloads(u.take(c));
            let b = payloads(v.take(n as int));
            assert(u.take(c + n) =~= u.take(c) + v.take(n as int));
            assert(payloads(u.take(c + n)) =~= a + b);
            lemma_forwarded_concat(a, b);
            lemma_broadcast_all_concat(subs0, cap, forwarded(a), forwarded(b));
            assert(v.skip(n as int) =~= u.skip(c + n));
            assert(only_acks(e0, log.entries())) by {
                assert forall|i: int| #![trigger log.entries()[i]] 0 <= i < e0.len() implies log.entries()[i].id == e0[i].id
                    && log.entries()[i].payload == e0[i].payload && (e0[i].acked ==> log.entries()[i].acked) by {
                    assert(e_before[i].id == e0[i].id);
                }
            }
            c = c + n;
        }
        if n == 0 {
            proof {
                assert(u.skip(c).len() == 0);
                assert(u.take(c) =~= u);
                assert(unacked(log.entries()) =~= Seq::<EntryView>::empty());
            }
            return;
        }
    }
}

} // verus!
