//! The relay: one message fanned out to every registered peer but its sender,
//! with the peers that cannot take it pruned from the registry.
use vstd::prelude::*;

use crate::message::{ChatMessage, ChatView};
use crate::registry::{
    lemma_remove_all_contains, lemma_remove_all_no_duplicates, lemma_remove_all_twice, remove_all,
    without, Outbound, Registry,
};

verus! {

/// The outcome of one delivery attempt: the peer, and whether its queue took
/// the message.
#[derive(Clone, Copy, Debug, PartialEq, Eq, Structural)]
pub struct Delivery {
    pub peer: u64,
    pub delivered: bool,
}

/// The peers attempted, in order.
pub open spec fn attempted(report: Seq<Delivery>) -> Seq<u64> {
    report.map_values(|d: Delivery| d.peer)
}

/// The peers whose attempt failed.
pub open spec fn failed_peers(report: Seq<Delivery>) -> Set<u64>
    decreases report.len(),
{
    if report.len() == 0 {
        Set::empty()
    } else {
        let rest = failed_peers(report.drop_last());
        if report.last().delivered {
            rest
        } else {
            rest.insert(report.last().peer)
        }
    }
}

/// What the successful attempts queued: `m` once for each peer that took it,
/// in the order of the attempts.
pub open spec fn deliveries(report: Seq<Delivery>, m: ChatView) -> Seq<(u64, ChatView)>
    decreases report.len(),
{
    if report.len() == 0 {
        Seq::empty()
    } else {
        let rest = deliveries(report.drop_last(), m);
        if report.last().delivered {
            rest.push((report.last().peer, m))
        } else {
            rest
        }
    }
}

/// The delivery attempts that the outcomes `report` stand for, with message `m`.
pub open spec fn attempt_log(report: Seq<Delivery>, m: ChatView) -> Seq<(u64, ChatView, bool)> {
    report.map_values(|d: Delivery| (d.peer, m, d.delivered))
}

/// `after` is a registry with ids `ids`, handles `handles`, queue record `sent`
/// and attempt record `attempts` once `m` has been relayed with the outcomes `report`: every registered
/// peer but the sender was attempted once, oldest first, on its own handle; each
/// peer that took the message has it queued; each peer that did not was removed.
pub open spec fn relay_effect(
    ids: Seq<u64>,
    handles: Map<u64, Outbound>,
    sent: Seq<(u64, ChatView)>,
    attempts: Seq<(u64, ChatView, bool)>,
    after: Registry,
    m: ChatView,
    report: Seq<Delivery>,
) -> bool {
    &&& after.wf()
    &&& attempted(report) == without(ids, m.sender)
    &&& after.ids() == remove_all(ids, failed_peers(report))
    &&& after.handles() == handles.remove_keys(failed_peers(report))
    &&& after.sent() == sent + deliveries(report, m)
    &&& after.attempts() == attempts + attempt_log(report, m)
}

/// `after` is `before` once `m` has been relayed with the outcomes `report`.
pub open spec fn relayed(before: Registry, after: Registry, m: ChatView, report: Seq<Delivery>) -> bool {
    relay_effect(before.ids(), before.handles(), before.sent(), before.attempts(), after, m, report)
}

/// Relays `message` to every registered peer but its sender, and removes each
/// peer whose queue is closed. A failed delivery does not stop the others: every
/// peer is attempted before any is removed.
pub fn broadcast_message(message: ChatMessage, registry: &mut Registry) -> (report: Vec<Delivery>)
    requires
        old(registry).wf(),
    ensures
        relayed(*old(registry), *final(registry), message@, report@),
{
    let ghost ids0 = registry.ids();
    let ghost handles0 = registry.handles();
    let ghost sent0 = registry.sent();
    let ghost attempts0 = registry.attempts();
    let targets = registry.snapshot_targets(message.get_addr());
    let ghost target_ids = targets@.map_values(|t: (u64, Outbound)| t.0);
    let mut report: Vec<Delivery> = Vec::new();
    let n = targets.len();
    for i in 0..n
        invariant
            n == targets@.len(),
            registry.wf(),
            registry.ids() == ids0,
            registry.handles() == handles0,
            target_ids == targets@.map_values(|t: (u64, Outbound)| t.0),
            target_ids == without(ids0, message@.sender),
            forall|k: int| 0 <= k < targets@.len() ==> #[trigger] targets@[k].1 == handles0[targets@[k].0],
            attempted(report@) == target_ids.subrange(0, i as int),
            registry.sent() == sent0 + deliveries(report@, message@),
            registry.attempts() == attempts0 + attempt_log(report@, message@),
    {
        let peer = targets[i].0;
        proof {
            assert(target_ids[i as int] == peer);
            assert(target_ids.contains(peer));
            lemma_remove_all_contains(ids0, set![message@.sender], peer);
            assert(registry.handles().dom().contains(peer));
        }
        let delivered = registry.deliver(peer, &targets[i].1, message.duplicate());
        let ghost prev = report@;
        let d = Delivery { peer, delivered };
        report.push(d);
        proof {
            assert(report@.drop_last() =~= prev);
            assert(attempted(prev).len() == i);
            assert(prev.len() == i);
            assert(target_ids[i as int] == peer);
            assert forall|k: int| 0 <= k < i implies attempted(report@)[k] == attempted(prev)[k] by {
                assert(report@[k] == prev[k]);
            }
            assert(attempted(report@) =~= target_ids.subrange(0, i + 1));
            assert(registry.sent() =~= sent0 + deliveries(report@, message@));
            assert(attempt_log(report@, message@) =~= attempt_log(prev, message@).push((peer, message@, delivered)));
            assert(registry.attempts() =~= attempts0 + attempt_log(report@, message@));
        }
    }
    proof {
        assert(attempted(report@) =~= target_ids);
        assert(report@.subrange(0, 0) =~= Seq::<Delivery>::empty());
        assert(remove_all(ids0, Set::empty()) == ids0) by {
            crate::registry::lemma_remove_all_absent(ids0, Set::empty());
        }
        assert(handles0.remove_keys(Set::empty()) =~= handles0);
    }
    for j in 0..n
        invariant
            n == report@.len(),
            registry.wf(),
            registry.ids() == remove_all(ids0, failed_peers(report@.subrange(0, j as int))),
            registry.handles() == handles0.remove_keys(failed_peers(report@.subrange(0, j as int))),
            registry.sent() == sent0 + deliveries(report@, message@),
            registry.attempts() == attempts0 + attempt_log(report@, message@),
    {
        let ghost f = failed_peers(report@.subrange(0, j as int));
        proof {
            assert(report@.subrange(0, j + 1).drop_last() =~= report@.subrange(0, j as int));
        }
        if !report[j].delivered {
            let p = report[j].peer;
            registry.deregister(p);
            proof {
                lemma_remove_all_twice(ids0, f, set![p]);
                assert(f.union(set![p]) =~= f.insert(p));
                assert(handles0.remove_keys(f).remove(p) =~= handles0.remove_keys(f.insert(p)));
            }
        }
    }
    proof {
        assert(report@.subrange(0, n as int) =~= report@);
    }
    report
}

/// The peers that the queue entries `entries` went to, in order.
pub open spec fn recipients(entries: Seq<(u64, ChatView)>) -> Seq<u64> {
    entries.map_values(|e: (u64, ChatView)| e.0)
}

proof fn lemma_failed_peers_contains(report: Seq<Delivery>, q: u64)
    ensures
        failed_peers(report).contains(q) <==> exists|i: int|
            0 <= i < report.len() && #[trigger] report[i].peer == q && !report[i].delivered,
    decreases report.len(),
{
    if report.len() > 0 {
        let d = report.drop_last();
        lemma_failed_peers_contains(d, q);
        if exists|i: int| 0 <= i < report.len() && #[trigger] report[i].peer == q && !report[i].delivered {
            let i = choose|i: int| 0 <= i < report.len() && #[trigger] report[i].peer == q && !report[i].delivered;
            if i < d.len() {
                assert(d[i].peer == q);
            }
        }
        if exists|i: int| 0 <= i < d.len() && #[trigger] d[i].peer == q && !d[i].delivered {
            let i = choose|i: int| 0 <= i < d.len() && #[trigger] d[i].peer == q && !d[i].delivered;
            assert(report[i].peer == q);
        }
    }
}

proof fn lemma_deliveries_facts(report: Seq<Delivery>, m: ChatView, q: u64)
    ensures
        deliveries(report, m).len() <= report.len(),
        forall|k: int| 0 <= k < deliveries(report, m).len() ==> (#[trigger] deliveries(report, m)[k]).1 == m,
        recipients(deliveries(report, m)).contains(q) <==> exists|i: int|
            0 <= i < report.len() && #[trigger] report[i].peer == q && report[i].delivered,
        attempted(report).no_duplicates() ==> recipients(deliveries(report, m)).no_duplicates(),
    decreases report.len(),
{
    if report.len() > 0 {
        let d = report.drop_last();
        let last = report.last();
        lemma_deliveries_facts(d, m, q);
        lemma_deliveries_facts(d, m, last.peer);
        let rd = deliveries(d, m);
        assert(attempted(d) =~= attempted(report).drop_last());
        if exists|i: int| 0 <= i < report.len() && #[trigger] report[i].peer == q && report[i].delivered {
            let i = choose|i: int| 0 <= i < report.len() && #[trigger] report[i].peer == q && report[i].delivered;
            if i < d.len() {
                assert(d[i].peer == q);
            }
        }
        if exists|i: int| 0 <= i < d.len() && #[trigger] d[i].peer == q && d[i].delivered {
            let i = choose|i: int| 0 <= i < d.len() && #[trigger] d[i].peer == q && d[i].delivered;
            assert(report[i].peer == q);
        }
        if last.delivered {
            let e = (last.peer, m);
            assert(recipients(rd.push(e)) =~= recipients(rd).push(last.peer));
            crate::registry::lemma_push_contains(recipients(rd), last.peer, q);
            if attempted(report).no_duplicates() {
                if recipients(rd).contains(last.peer) {
                    let i = choose|i: int| 0 <= i < d.len() && #[trigger] d[i].peer == last.peer && d[i].delivered;
                    assert(attempted(report)[i] == attempted(report)[report.len() - 1]);
                }
                assert forall|a: int, b: int|
                    0 <= a < recipients(rd.push(e)).len() && 0 <= b < recipients(rd.push(e)).len() && a != b
                    implies recipients(rd.push(e))[a] != recipients(rd.push(e))[b] by {
                    if a == rd.len() {
                        assert(recipients(rd).contains(recipients(rd)[b]));
                    } else if b == rd.len() {
                        assert(recipients(rd).contains(recipients(rd)[a]));
                    }
                }
            }
        }
    }
}

/// Relaying reaches each other live peer exactly once and never the sender:
/// every registered peer but the sender is attempted, each exactly once; the
/// entries added to the queues all carry the message, at most one per peer; and
/// the peers that got one are exactly the other peers still registered afterwards
/// (a peer whose queue was closed is no longer registered). So each peer's queue
/// grows by one copy of the message if it is another live peer, else not at all.
pub proof fn lemma_relay_exactly_once(before: Registry, after: Registry, m: ChatView, report: Seq<Delivery>)
    requires
        before.wf(),
        relayed(before, after, m, report),
    ensures
        forall|q: u64| attempted(report).contains(q) <==> before.ids().contains(q) && q != m.sender,
        attempted(report).no_duplicates(),
        after.sent().subrange(0, before.sent().len() as int) == before.sent(),
        forall|k: int| before.sent().len() <= k < after.sent().len() ==> (#[trigger] after.sent()[k]).1 == m,
        recipients(after.sent().skip(before.sent().len() as int)).no_duplicates(),
        forall|q: u64| #[trigger] recipients(after.sent().skip(before.sent().len() as int)).contains(q)
            <==> before.ids().contains(q) && q != m.sender && after.ids().contains(q),
        forall|q: u64| #[trigger] queue_of(after.sent(), q) == queue_of(before.sent(), q) + if before.ids().contains(q)
            && q != m.sender && after.ids().contains(q) {
            seq![m]
        } else {
            Seq::<ChatView>::empty()
        },
{
    let new = deliveries(report, m);
    let n0 = before.sent().len() as int;
    assert(after.sent().subrange(0, n0) =~= before.sent());
    assert(after.sent().skip(n0) =~= new);
    lemma_remove_all_no_duplicates(before.ids(), set![m.sender]);
    assert forall|q: u64| attempted(report).contains(q) <==> before.ids().contains(q) && q != m.sender by {
        lemma_remove_all_contains(before.ids(), set![m.sender], q);
    }
    lemma_deliveries_facts(report, m, m.sender);
    assert forall|k: int| n0 <= k < after.sent().len() implies (#[trigger] after.sent()[k]).1 == m by {
        assert(after.sent()[k] == new[k - n0]);
    }
    assert forall|q: u64| #[trigger] recipients(new).contains(q)
        <==> before.ids().contains(q) && q != m.sender && after.ids().contains(q) by {
        lemma_deliveries_facts(report, m, q);
        lemma_failed_peers_contains(report, q);
        lemma_remove_all_contains(before.ids(), failed_peers(report), q);
        lemma_remove_all_contains(before.ids(), set![m.sender], q);
        if attempted(report).contains(q) {
            let i = choose|i: int| 0 <= i < attempted(report).len() && attempted(report)[i] == q;
            assert(report[i].peer == q);
            assert forall|j: int| 0 <= j < report.len() && #[trigger] report[j].peer == q implies j == i by {
                assert(attempted(report)[j] == attempted(report)[i]);
            }
        } else {
            assert forall|j: int| 0 <= j < report.len() implies #[trigger] report[j].peer != q by {
                assert(attempted(report)[j] == report[j].peer);
            }
        }
    }
    assert forall|q: u64| #[trigger] queue_of(after.sent(), q) == queue_of(before.sent(), q) + if before.ids().contains(q)
        && q != m.sender && after.ids().contains(q) {
        seq![m]
    } else {
        Seq::<ChatView>::empty()
    } by {
        lemma_queue_of_concat(before.sent(), new, q);
        lemma_queue_of_deliveries(report, m, q);
        lemma_deliveries_facts(report, m, q);
        assert(recipients(new).contains(q) <==> (before.ids().contains(q) && q != m.sender && after.ids().contains(q)));
    }
}

/// A peer whose queue refused the message is removed from the registry, handle
/// and all, and that failure stops no one else: every other registered peer but
/// the sender was attempted in the same relay.
pub proof fn lemma_failed_peer_pruned(
    before: Registry,
    after: Registry,
    m: ChatView,
    report: Seq<Delivery>,
    i: int,
)
    requires
        before.wf(),
        relayed(before, after, m, report),
        0 <= i < report.len(),
        !report[i].delivered,
    ensures
        !after.ids().contains(report[i].peer),
        !after.handles().dom().contains(report[i].peer),
        forall|q: u64| before.ids().contains(q) && q != m.sender ==> #[trigger] attempted(report).contains(q),
{
    let p = report[i].peer;
    lemma_failed_peers_contains(report, p);
    lemma_remove_all_contains(before.ids(), failed_peers(report), p);
    assert forall|q: u64| before.ids().contains(q) && q != m.sender implies #[trigger] attempted(report).contains(q) by {
        lemma_remove_all_contains(before.ids(), set![m.sender], q);
    }
}

/// The messages queued for `peer`, in the order in which they were queued.
pub open spec fn queue_of(sent: Seq<(u64, ChatView)>, peer: u64) -> Seq<ChatView>
    decreases sent.len(),
{
    if sent.len() == 0 {
        Seq::empty()
    } else {
        let rest = queue_of(sent.drop_last(), peer);
        if sent.last().0 == peer {
            rest.push(sent.last().1)
        } else {
            rest
        }
    }
}

/// Whether the relay with outcomes `report` queued its message for `peer`.
pub open spec fn reached(report: Seq<Delivery>, peer: u64) -> bool {
    exists|i: int| 0 <= i < report.len() && #[trigger] report[i].peer == peer && report[i].delivered
}

/// What the relay with outcomes `report` queued for `peer`: `m` once, or nothing.
pub open spec fn got(report: Seq<Delivery>, peer: u64, m: ChatView) -> Seq<ChatView> {
    if reached(report, peer) {
        seq![m]
    } else {
        Seq::empty()
    }
}

proof fn lemma_queue_of_concat(s: Seq<(u64, ChatView)>, t: Seq<(u64, ChatView)>, peer: u64)
    ensures
        queue_of(s + t, peer) == queue_of(s, peer) + queue_of(t, peer),
    decreases t.len(),
{
    if t.len() == 0 {
        assert(s + t =~= s);
        assert(queue_of(s, peer) + queue_of(t, peer) =~= queue_of(s, peer));
    } else {
        lemma_queue_of_concat(s, t.drop_last(), peer);
        assert((s + t).drop_last() =~= s + t.drop_last());
        assert((s + t).last() == t.last());
        if t.last().0 == peer {
            assert(queue_of(s, peer) + queue_of(t.drop_last(), peer).push(t.last().1) =~= (queue_of(s, peer)
                + queue_of(t.drop_last(), peer)).push(t.last().1));
        }
    }
}

proof fn lemma_queue_of_deliveries(report: Seq<Delivery>, m: ChatView, peer: u64)
    requires
        attempted(report).no_duplicates(),
    ensures
        queue_of(deliveries(report, m), peer) == got(report, peer, m),
    decreases report.len(),
{
    if report.len() > 0 {
        let d = report.drop_last();
        let last = report.last();
        assert(attempted(d) =~= attempted(report).drop_last());
        lemma_queue_of_deliveries(d, m, peer);
        if reached(report, peer) {
            let i = choose|i: int| 0 <= i < report.len() && #[trigger] report[i].peer == peer && report[i].delivered;
            if i < d.len() {
                assert(d[i].peer == peer);
            }
        }
        if reached(d, peer) {
            let i = choose|i: int| 0 <= i < d.len() && #[trigger] d[i].peer == peer && d[i].delivered;
            assert(report[i].peer == peer);
            if last.peer == peer {
                assert(attempted(report)[i] == attempted(report)[report.len() - 1]);
            }
        }
        if last.delivered {
            let rd = deliveries(d, m);
            assert(rd.push((last.peer, m)).drop_last() =~= rd);
            if last.peer == peer {
                assert(report[report.len() - 1].peer == peer);
                assert(queue_of(rd, peer) =~= Seq::<ChatView>::empty());
                assert(Seq::<ChatView>::empty().push(m) =~= seq![m]);
            }
        } else if last.peer == peer && reached(report, peer) {
            let i = choose|i: int| 0 <= i < report.len() && #[trigger] report[i].peer == peer && report[i].delivered;
            assert(i < d.len());
            assert(d[i].peer == peer);
        }
    }
}

/// Relaying keeps each sender's order: when `m1` is relayed before `m2`, and what
/// happens in between only adds to the queues, a peer's queue gets `m1` (if that
/// relay reached it), then whatever was queued for it in between, then `m2` (if
/// that relay reached it). Reading its queue in order, the peer sees `m1` before
/// `m2`, with other messages possibly between them.
pub proof fn lemma_relay_order_kept(
    r0: Registry,
    r1: Registry,
    r2: Registry,
    r3: Registry,
    m1: ChatView,
    m2: ChatView,
    rep1: Seq<Delivery>,
    rep2: Seq<Delivery>,
    peer: u64,
)
    requires
        r0.wf(),
        relayed(r0, r1, m1, rep1),
        r1.sent().is_prefix_of(r2.sent()),
        r2.wf(),
        relayed(r2, r3, m2, rep2),
    ensures
        queue_of(r3.sent(), peer) == queue_of(r0.sent(), peer) + got(rep1, peer, m1) + queue_of(
            r2.sent().skip(r1.sent().len() as int),
            peer,
        ) + got(rep2, peer, m2),
{
    lemma_remove_all_no_duplicates(r0.ids(), set![m1.sender]);
    lemma_remove_all_no_duplicates(r2.ids(), set![m2.sender]);
    let between = r2.sent().skip(r1.sent().len() as int);
    assert(r2.sent() =~= r1.sent() + between);
    lemma_queue_of_concat(r0.sent(), deliveries(rep1, m1), peer);
    lemma_queue_of_deliveries(rep1, m1, peer);
    lemma_queue_of_concat(r1.sent(), between, peer);
    lemma_queue_of_concat(r2.sent(), deliveries(rep2, m2), peer);
    lemma_queue_of_deliveries(rep2, m2, peer);
}

} // verus!
