//! The work the network systems do on each tick: sorting what the transport
//! received into the queues of their message types, handing the connection
//! events to the application, and delivering the queue of one message type
//! to its consumer.
use vstd::prelude::*;

use crate::shared::event::{ConnectionHandle, Enveloppe, NetworkEvent, NetworkEvents};
use crate::shared::resources::{queue_of, Connections, Queued};

verus! {

/// A received event, with the envelope its bytes decode to when it is a
/// message whose bytes do decode.
pub type Received = (NetworkEvent, Option<Enveloppe>);

/// The queues after a message from `h` with envelope `e` joined the back of
/// the queue of its type.
pub open spec fn enqueue(
    m: Map<Seq<char>, Seq<Queued>>,
    h: ConnectionHandle,
    e: Enveloppe,
) -> Map<Seq<char>, Seq<Queued>> {
    m.insert(e.message_type@, queue_of(m, e.message_type@).push((h, e)))
}

/// The queues after one received event: a decoded message is queued under
/// its type; anything else leaves the queues as they are.
pub open spec fn route_one_queues(m: Map<Seq<char>, Seq<Queued>>, r: Received) -> Map<
    Seq<char>,
    Seq<Queued>,
> {
    match r.0 {
        NetworkEvent::Message(h, _) => match r.1 {
            Some(e) => enqueue(m, h, e),
            None => m,
        },
        _ => m,
    }
}

/// The connection events after one received event: an event that is no
/// message is appended; a message leaves them as they are.
pub open spec fn route_one_events(evs: Seq<NetworkEvent>, r: Received) -> Seq<NetworkEvent> {
    match r.0 {
        NetworkEvent::Message(_, _) => evs,
        _ => evs.push(r.0),
    }
}

/// The queues after a whole batch, taken in order.
pub open spec fn route_queues(m: Map<Seq<char>, Seq<Queued>>, batch: Seq<Received>) -> Map<
    Seq<char>,
    Seq<Queued>,
>
    decreases batch.len(),
{
    if batch.len() == 0 {
        m
    } else {
        route_one_queues(route_queues(m, batch.drop_last()), batch.last())
    }
}

/// The connection events after a whole batch, taken in order.
pub open spec fn route_events(evs: Seq<NetworkEvent>, batch: Seq<Received>) -> Seq<NetworkEvent>
    decreases batch.len(),
{
    if batch.len() == 0 {
        evs
    } else {
        route_one_events(route_events(evs, batch.drop_last()), batch.last())
    }
}

/// The decoded messages of a batch whose type is `k`, in arrival order,
/// each with its sender.
pub open spec fn messages_of_type(batch: Seq<Received>, k: Seq<char>) -> Seq<Queued>
    decreases batch.len(),
{
    if batch.len() == 0 {
        Seq::empty()
    } else {
        let prev = messages_of_type(batch.drop_last(), k);
        match batch.last().0 {
            NetworkEvent::Message(h, _) => match batch.last().1 {
                Some(e) => if e.message_type@ == k {
                    prev.push((h, e))
                } else {
                    prev
                },
                None => prev,
            },
            _ => prev,
        }
    }
}

/// The events of a batch that are no message, in arrival order.
pub open spec fn connection_events(batch: Seq<Received>) -> Seq<NetworkEvent>
    decreases batch.len(),
{
    if batch.len() == 0 {
        Seq::empty()
    } else {
        let prev = connection_events(batch.drop_last());
        match batch.last().0 {
            NetworkEvent::Message(_, _) => prev,
            _ => prev.push(batch.last().0),
        }
    }
}

/// The entries whose decoding succeeded, in their order, each with its
/// decoded value.
pub open spec fn keep_decoded<T>(items: Seq<(ConnectionHandle, Option<T>)>) -> Seq<
    (ConnectionHandle, T),
>
    decreases items.len(),
{
    if items.len() == 0 {
        Seq::empty()
    } else {
        let prev = keep_decoded(items.drop_last());
        match items.last().1 {
            Some(t) => prev.push((items.last().0, t)),
            None => prev,
        }
    }
}

/// `pairs` holds, for each queued message in turn, its sender and a result
/// that `decode` may give for its envelope.
pub open spec fn decoded_by<T, F: Fn(&Enveloppe) -> Option<T>>(
    decode: F,
    queue: Seq<Queued>,
    pairs: Seq<(ConnectionHandle, Option<T>)>,
) -> bool {
    &&& pairs.len() == queue.len()
    &&& forall|i: int|
        0 <= i < queue.len() ==> #[trigger] pairs[i].0 == queue[i].0 && call_ensures(
            decode,
            (&queue[i].1,),
            pairs[i].1,
        )
}

/// Routes one received event: a message whose bytes decoded joins the back
/// of the queue of its type (the queue is created when it is the first of
/// its type); a message whose bytes did not decode is dropped; any other
/// event is appended to the connection events.
pub fn consume_message(
    hmap: &mut Connections,
    network_events: &mut NetworkEvents,
    ev: NetworkEvent,
    decoded: Option<Enveloppe>,
)
    ensures
        final(hmap)@ == route_one_queues(old(hmap)@, (ev, decoded)),
        final(network_events).0@ == route_one_events(old(network_events).0@, (ev, decoded)),
{
    match ev {
        NetworkEvent::Message(handle, _raw) => {
            match decoded {
                Some(enveloppe) => {
                    let tp = enveloppe.message_type.clone();
                    let mut v = match hmap.remove(&tp) {
                        Some(x) => x,
                        None => Vec::new(),
                    };
                    v.push((handle, enveloppe));
                    hmap.insert(tp, v);
                    proof {
                        assert(hmap@ =~= enqueue(old(hmap)@, handle, enveloppe));
                    }
                },
                None => {},
            }
        },
        other => {
            network_events.0.push(other);
        },
    }
}

/// Routes a batch of received events, in order, as `consume_message` routes
/// each one.
#[verifier::spinoff_prover]
pub fn consume_messages(
    hmap: &mut Connections,
    network_events: &mut NetworkEvents,
    batch: Vec<Received>,
)
    ensures
        final(hmap)@ == route_queues(old(hmap)@, batch@),
        final(network_events).0@ == route_events(old(network_events).0@, batch@),
{
    let ghost m0 = hmap@;
    let ghost e0 = network_events.0@;
    let ghost all = batch@;
    for item in it: batch.into_iter()
        invariant
            it.seq() == all,
            hmap@ == route_queues(m0, all.take(it.index())),
            network_events.0@ == route_events(e0, all.take(it.index())),
    {
        let ghost i = it.index();
        proof {
            assert(all.take(i + 1).drop_last() =~= all.take(i));
        }
        let (ev, decoded) = item;
        consume_message(hmap, network_events, ev, decoded);
    }
    proof {
        assert(all.take(all.len() as int) =~= all);
    }
}

/// Hands every buffered connection event to the caller, in arrival order,
/// and leaves the buffer empty.
pub fn handle_network_events(events: &mut NetworkEvents) -> (sent: Vec<NetworkEvent>)
    ensures
        sent@ == old(events).0@,
        final(events).0@ == Seq::<NetworkEvent>::empty(),
{
    let mut sent = Vec::new();
    sent.append(&mut events.0);
    sent
}

/// Keeps the entries whose decoding succeeded, in their order.
#[verifier::spinoff_prover]
pub fn forward_decoded<T>(items: Vec<(ConnectionHandle, Option<T>)>) -> (r: Vec<
    (ConnectionHandle, T),
>)
    ensures
        r@ == keep_decoded(items@),
        r@ == items@.filter(|p: (ConnectionHandle, Option<T>)| p.1 is Some).map_values(
            |p: (ConnectionHandle, Option<T>)| (p.0, p.1->0),
        ),
{
    let ghost all = items@;
    let mut r: Vec<(ConnectionHandle, T)> = Vec::new();
    for item in it: items.into_iter()
        invariant
            it.seq() == all,
            r@ == keep_decoded(all.take(it.index())),
    {
        let ghost i = it.index();
        proof {
            assert(all.take(i + 1).drop_last() =~= all.take(i));
        }
        let (handle, out) = item;
        match out {
            Some(t) => r.push((handle, t)),
            None => {},
        }
    }
    proof {
        assert(all.take(all.len() as int) =~= all);
        lemma_delivery_is_filter(all);
    }
    r
}

/// Takes the queue of the message type `key` out of the queues and delivers
/// its messages, in order, to the consumer of that type: each envelope is
/// decoded with `decode`, and those that decode are delivered with their
/// sender; the others are dropped. The queues of other types are untouched.
#[verifier::spinoff_prover]
pub fn add_message_consumer<T, F: Fn(&Enveloppe) -> Option<T>>(
    key: &String,
    hmap: &mut Connections,
    decode: F,
) -> (delivered: Vec<(ConnectionHandle, T)>)
    requires
        forall|e: Enveloppe| call_requires(decode, (&e,)),
    ensures
        final(hmap)@ == old(hmap)@.remove(key@),
        exists|pairs: Seq<(ConnectionHandle, Option<T>)>|
            decoded_by(decode, queue_of(old(hmap)@, key@), pairs) && delivered@ == keep_decoded(
                pairs,
            ),
{
    let queue = match hmap.remove(key) {
        Some(v) => v,
        None => Vec::new(),
    };
    let ghost q = queue@;
    let mut pairs: Vec<(ConnectionHandle, Option<T>)> = Vec::new();
    for item in it: queue.into_iter()
        invariant
            it.seq() == q,
            forall|e: Enveloppe| call_requires(decode, (&e,)),
            pairs@.len() == it.index(),
            forall|i: int|
                0 <= i < it.index() ==> #[trigger] pairs@[i].0 == q[i].0 && call_ensures(
                    decode,
                    (&q[i].1,),
                    pairs@[i].1,
                ),
    {
        let ghost k = pairs@.len() as int;
        let ghost prev = pairs@;
        let (handle, enveloppe) = item;
        let out = decode(&enveloppe);
        pairs.push((handle, out));
        proof {
            assert(q[k] == (handle, enveloppe));
            assert forall|i: int| 0 <= i < k + 1 implies #[trigger] pairs@[i].0 == q[i].0
                && call_ensures(decode, (&q[i].1,), pairs@[i].1) by {
                if i < k {
                    assert(pairs@[i] == prev[i]);
                }
            }
        }
    }
    let ghost witness = pairs@;
    assert(decoded_by(decode, q, witness));
    forward_decoded(pairs)
}

/// Routing queues each decoded message under its type, after what was
/// queued there before, in arrival order: the queue of a type after a batch
/// is the queue it had, followed by the batch's decoded messages of that
/// type. A type gets a queue exactly when it had one or the batch holds a
/// decoded message of it.
pub proof fn lemma_routed_queue(m: Map<Seq<char>, Seq<Queued>>, batch: Seq<Received>, k: Seq<char>)
    ensures
        queue_of(route_queues(m, batch), k) == queue_of(m, k) + messages_of_type(batch, k),
        route_queues(m, batch).contains_key(k) <==> (m.contains_key(k) || messages_of_type(
            batch,
            k,
        ).len() > 0),
    decreases batch.len(),
{
    if batch.len() == 0 {
        assert(queue_of(m, k) + Seq::<Queued>::empty() =~= queue_of(m, k));
    } else {
        let b = batch.drop_last();
        lemma_routed_queue(m, b, k);
        let prev = route_queues(m, b);
        match batch.last().0 {
            NetworkEvent::Message(h, _) => match batch.last().1 {
                Some(e) => {
                    if e.message_type@ == k {
                        assert(queue_of(m, k) + messages_of_type(b, k).push((h, e)) =~= (queue_of(
                            m,
                            k,
                        ) + messages_of_type(b, k)).push((h, e)));
                    }
                },
                None => {},
            },
            _ => {},
        }
    }
}

/// The connection events after a batch are those buffered before, followed
/// by the batch's events that are no message, in arrival order.
pub proof fn lemma_routed_events(evs: Seq<NetworkEvent>, batch: Seq<Received>)
    ensures
        route_events(evs, batch) == evs + connection_events(batch),
    decreases batch.len(),
{
    if batch.len() == 0 {
        assert(evs + Seq::<NetworkEvent>::empty() =~= evs);
    } else {
        let b = batch.drop_last();
        lemma_routed_events(evs, b);
        match batch.last().0 {
            NetworkEvent::Message(_, _) => {},
            _ => {
                assert(evs + connection_events(b).push(batch.last().0) =~= (evs
                    + connection_events(b)).push(batch.last().0));
            },
        }
    }
}

/// Delivery keeps the order of the queue and drops only what fails to
/// decode: there are never more deliveries than queued messages, and when
/// every message decodes each one is delivered, in place, with its sender.
pub proof fn lemma_delivery_order<T>(pairs: Seq<(ConnectionHandle, Option<T>)>)
    ensures
        keep_decoded(pairs).len() <= pairs.len(),
        (forall|i: int| 0 <= i < pairs.len() ==> (#[trigger] pairs[i]).1 is Some) ==> {
            &&& keep_decoded(pairs).len() == pairs.len()
            &&& forall|i: int|
                0 <= i < pairs.len() ==> #[trigger] keep_decoded(pairs)[i] == (
                    pairs[i].0,
                    pairs[i].1->0,
                )
        },
        (forall|i: int| 0 <= i < pairs.len() ==> (#[trigger] pairs[i]).1 is None) ==> keep_decoded(
            pairs,
        ).len() == 0,
    decreases pairs.len(),
{
    if pairs.len() > 0 {
        let d = pairs.drop_last();
        lemma_delivery_order(d);
        if forall|i: int| 0 <= i < pairs.len() ==> (#[trigger] pairs[i]).1 is Some {
            assert forall|i: int| 0 <= i < d.len() implies (#[trigger] d[i]).1 is Some by {
                assert(d[i] == pairs[i]);
            }
            assert(pairs[pairs.len() - 1].1 is Some);
            assert forall|i: int| 0 <= i < pairs.len() implies #[trigger] keep_decoded(pairs)[i] == (
                pairs[i].0,
                pairs[i].1->0,
            ) by {
                if i < d.len() {
                    assert(d[i] == pairs[i]);
                }
            }
        }
        if forall|i: int| 0 <= i < pairs.len() ==> (#[trigger] pairs[i]).1 is None {
            assert forall|i: int| 0 <= i < d.len() implies (#[trigger] d[i]).1 is None by {
                assert(d[i] == pairs[i]);
            }
            assert(pairs[pairs.len() - 1].1 is None);
        }
    }
}

/// Delivery is the order-keeping filter of the decoded entries: exactly the
/// entries whose decoding succeeded, each once, in the order they had, each
/// with its own sender and its own decoded value.
pub proof fn lemma_delivery_is_filter<T>(pairs: Seq<(ConnectionHandle, Option<T>)>)
    ensures
        keep_decoded(pairs) == pairs.filter(|p: (ConnectionHandle, Option<T>)| p.1 is Some).map_values(
            |p: (ConnectionHandle, Option<T>)| (p.0, p.1->0),
        ),
    decreases pairs.len(),
{
    reveal(Seq::filter);
    let is_ok = |p: (ConnectionHandle, Option<T>)| p.1 is Some;
    let unwrap = |p: (ConnectionHandle, Option<T>)| (p.0, p.1->0);
    if pairs.len() > 0 {
        let d = pairs.drop_last();
        lemma_delivery_is_filter(d);
        if pairs.last().1 is Some {
            assert(pairs.filter(is_ok) == d.filter(is_ok).push(pairs.last()));
            assert(d.filter(is_ok).push(pairs.last()).map_values(unwrap) =~= d.filter(
                is_ok,
            ).map_values(unwrap).push(unwrap(pairs.last())));
        } else {
            assert(pairs.filter(is_ok) == d.filter(is_ok));
        }
    } else {
        assert(pairs.filter(is_ok).map_values(unwrap) =~= Seq::<(ConnectionHandle, T)>::empty());
    }
}

/// Each entry is delivered on its own: what two runs of entries deliver,
/// one after the other, is what the runs deliver one after the other; an
/// entry that decodes delivers its sender and value, one that does not
/// delivers nothing. So a failed entry never holds back, drops or reorders
/// the entries around it.
pub proof fn lemma_delivery_is_per_entry<T>(
    p: Seq<(ConnectionHandle, Option<T>)>,
    q: Seq<(ConnectionHandle, Option<T>)>,
    h: ConnectionHandle,
    t: T,
)
    ensures
        keep_decoded(p + q) == keep_decoded(p) + keep_decoded(q),
        keep_decoded(seq![(h, Some(t))]) == seq![(h, t)],
        keep_decoded(seq![(h, None::<T>)]) == Seq::<(ConnectionHandle, T)>::empty(),
        keep_decoded(p.push((h, Some(t)))) == keep_decoded(p).push((h, t)),
        keep_decoded(p.push((h, None::<T>))) == keep_decoded(p),
    decreases q.len(),
{
    let one = seq![(h, Some(t))];
    let none = seq![(h, None::<T>)];
    let empty = Seq::<(ConnectionHandle, Option<T>)>::empty();
    assert(one.drop_last() =~= empty);
    assert(none.drop_last() =~= empty);
    assert(keep_decoded(empty) == Seq::<(ConnectionHandle, T)>::empty());
    assert(one.last() == (h, Some(t)));
    assert(none.last() == (h, None::<T>));
    assert(keep_decoded(one) =~= seq![(h, t)]);
    assert(keep_decoded(none) =~= Seq::<(ConnectionHandle, T)>::empty());
    assert(p.push((h, Some(t))).drop_last() =~= p);
    assert(p.push((h, None::<T>)).drop_last() =~= p);
    if q.len() == 0 {
        assert(p + q =~= p);
        assert(keep_decoded(p) + keep_decoded(q) =~= keep_decoded(p));
    } else {
        let qd = q.drop_last();
        lemma_delivery_is_per_entry(p, qd, h, t);
        assert((p + q).drop_last() =~= p + qd);
        assert((p + q).last() == q.last());
        match q.last().1 {
            Some(v) => {
                assert(keep_decoded(p) + keep_decoded(qd).push((q.last().0, v)) =~= (keep_decoded(
                    p,
                ) + keep_decoded(qd)).push((q.last().0, v)));
            },
            None => {},
        }
    }
}

/// What the consumer of type `k` is delivered after a batch was routed: when
/// every envelope decodes, each message queued under `k` before the batch,
/// then each decoded message of type `k` in the batch, in that order, with
/// its sender; the queues of the other types keep what routing put there;
/// and a second delivery of `k` right after delivers nothing.
pub proof fn lemma_route_then_deliver<T, F: Fn(&Enveloppe) -> Option<T>>(
    m: Map<Seq<char>, Seq<Queued>>,
    batch: Seq<Received>,
    k: Seq<char>,
    decode: F,
    pairs: Seq<(ConnectionHandle, Option<T>)>,
    other: Seq<char>,
)
    requires
        decoded_by(decode, queue_of(route_queues(m, batch), k), pairs),
        forall|i: int| 0 <= i < pairs.len() ==> (#[trigger] pairs[i]).1 is Some,
        other != k,
    ensures
        keep_decoded(pairs).len() == queue_of(m, k).len() + messages_of_type(batch, k).len(),
        forall|i: int|
            0 <= i < keep_decoded(pairs).len() ==> (#[trigger] keep_decoded(pairs)[i]).0 == (
            queue_of(m, k) + messages_of_type(batch, k))[i].0,
        queue_of(route_queues(m, batch).remove(k), other) == queue_of(m, other) + messages_of_type(
            batch,
            other,
        ),
        queue_of(route_queues(m, batch).remove(k), k) == Seq::<Queued>::empty(),
{
    lemma_routed_queue(m, batch, k);
    lemma_routed_queue(m, batch, other);
    lemma_delivery_order(pairs);
    assert forall|i: int| 0 <= i < keep_decoded(pairs).len() implies (#[trigger] keep_decoded(
        pairs,
    )[i]).0 == (queue_of(m, k) + messages_of_type(batch, k))[i].0 by {
        assert(pairs[i].0 == queue_of(route_queues(m, batch), k)[i].0);
    }
}

} // verus!
