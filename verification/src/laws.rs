use vstd::prelude::*;

use crate::ipc::EndpointModel;
use crate::ipc::Errno;
use crate::ipc::IpcModel;
use crate::ipc::RB_CAPACITY;

verus! {

/// A name that was just registered is found by a lookup, under the handle that
/// the registration returned.
pub proof fn lemma_lookup_after_register(m: IpcModel, name: Seq<char>)
    requires
        m.inv(),
        m.endpoints.len() <= usize::MAX,
    ensures
        m.step_register(name).0.step_lookup(name) == Ok::<usize, Errno>(m.step_register(name).1),
{
}

/// Registering a name twice returns the same handle and the second registration
/// changes nothing.
pub proof fn lemma_register_idempotent(m: IpcModel, name: Seq<char>)
    requires
        m.inv(),
        m.endpoints.len() <= usize::MAX,
    ensures
        m.step_register(name).0.step_register(name) == m.step_register(name),
{
}

/// Registering one name does not change what another name looks up to.
pub proof fn lemma_register_keeps_other_names(m: IpcModel, name: Seq<char>, other: Seq<char>)
    requires
        m.inv(),
        name != other,
    ensures
        m.step_register(name).0.step_lookup(other) == m.step_lookup(other),
{
}

/// Different registered names have different handles.
pub proof fn lemma_handles_distinct(m: IpcModel, n1: Seq<char>, n2: Seq<char>)
    requires
        m.inv(),
        m.registry.contains_key(n1),
        m.registry.contains_key(n2),
        n1 != n2,
    ensures
        m.registry[n1] != m.registry[n2],
{
}

/// Unregistering succeeds exactly for registered names, and afterwards the name is
/// no longer found.
pub proof fn lemma_lookup_after_unregister(m: IpcModel, name: Seq<char>)
    requires
        m.inv(),
    ensures
        m.step_unregister(name).1 is Ok <==> m.registry.contains_key(name),
        m.step_unregister(name).0.step_lookup(name) == Err::<usize, Errno>(Errno::EUNKN),
{
}

/// The handle of an unregistered name is the one the next new name receives.
pub proof fn lemma_handle_reused(m: IpcModel, name: Seq<char>, next: Seq<char>)
    requires
        m.inv(),
        m.registry.contains_key(name),
        !m.step_unregister(name).0.registry.contains_key(next),
    ensures
        m.step_unregister(name).0.step_register(next).1 == m.registry[name],
{
    assert(m.is_live(m.registry[name] as int));
}

/// A message sent to an empty endpoint is what the next receive delivers, when the
/// buffer is large enough; afterwards the state is as before the send.
pub proof fn lemma_send_then_receive(m: IpcModel, handle: usize, msg: Seq<u8>, recv_len: nat)
    requires
        m.inv(),
        m.is_live(handle as int),
        m.endpoint(handle as int).queue.len() == 0,
        msg.len() <= recv_len,
    ensures
        m.step_send(handle, msg).1 == Ok::<usize, Errno>(0),
        m.step_send(handle, msg).0.endpoint(handle as int).queue[0] == msg,
        m.step_send(handle, msg).0.step_receive(handle, recv_len).1 == Ok::<usize, Errno>(
            msg.len() as usize,
        ),
        m.step_send(handle, msg).0.step_receive(handle, recv_len).0 == m,
{
    let m1 = m.step_send(handle, msg).0;
    let ep = m.endpoint(handle as int);
    assert(m1.endpoint(handle as int).queue =~= seq![msg]);
    let m2 = m1.step_receive(handle, recv_len).0;
    assert(m2.endpoint(handle as int).queue =~= ep.queue);
    assert(m2.endpoints[handle as int] == m.endpoints[handle as int]);
    assert(m2.endpoints =~= m.endpoints);
}

/// Messages are delivered in the order they were sent: on an endpoint that holds
/// some messages and has room, a send followed by a receive has the same result as
/// the receive followed by the send.
pub proof fn lemma_send_receive_commute(m: IpcModel, handle: usize, msg: Seq<u8>, recv_len: nat)
    requires
        m.inv(),
        m.is_live(handle as int),
        0 < m.endpoint(handle as int).queue.len() < RB_CAPACITY,
    ensures
        m.step_send(handle, msg).0.step_receive(handle, recv_len).1 == m.step_receive(
            handle,
            recv_len,
        ).1,
        m.step_send(handle, msg).0.step_receive(handle, recv_len).0 == m.step_receive(
            handle,
            recv_len,
        ).0.step_send(handle, msg).0,
{
    let q = m.endpoint(handle as int).queue;
    assert(q.push(msg).drop_first() =~= q.drop_first().push(msg));
    assert(q.push(msg)[0] == q[0]);
    let a = m.step_send(handle, msg).0.step_receive(handle, recv_len).0;
    let b = m.step_receive(handle, recv_len).0.step_send(handle, msg).0;
    assert(a.endpoints =~= b.endpoints);
}

/// A send touches only the endpoint it is addressed to.
pub proof fn lemma_send_isolated(m: IpcModel, handle: usize, msg: Seq<u8>, other: int)
    requires
        m.inv(),
        other != handle,
        0 <= other < m.endpoints.len(),
    ensures
        m.step_send(handle, msg).0.endpoints[other] == m.endpoints[other],
        m.step_send(handle, msg).0.registry == m.registry,
        m.step_send(handle, msg).0.endpoints.len() == m.endpoints.len(),
{
}

/// A receive touches only the endpoint it is addressed to.
pub proof fn lemma_receive_isolated(m: IpcModel, handle: usize, recv_len: nat, other: int)
    requires
        m.inv(),
        other != handle,
        0 <= other < m.endpoints.len(),
    ensures
        m.step_receive(handle, recv_len).0.endpoints[other] == m.endpoints[other],
        m.step_receive(handle, recv_len).0.registry == m.registry,
        m.step_receive(handle, recv_len).0.endpoints.len() == m.endpoints.len(),
{
}

/// A receive into a buffer too small for the next message fails with `ERRCV`,
/// keeps that message queued, and a large enough buffer then gets it.
pub proof fn lemma_short_buffer_keeps_message(
    m: IpcModel,
    handle: usize,
    short: nat,
    long: nat,
)
    requires
        m.inv(),
        m.is_live(handle as int),
        m.endpoint(handle as int).queue.len() > 0,
        short < m.endpoint(handle as int).queue[0].len() <= long,
    ensures
        m.step_receive(handle, short) == (m, Err::<usize, Errno>(Errno::ERRCV)),
        m.step_receive(handle, long).1 == Ok::<usize, Errno>(
            m.endpoint(handle as int).queue[0].len() as usize,
        ),
{
    let ep: EndpointModel = m.endpoint(handle as int);
    assert(m.endpoints.update(handle as int, Some(ep)) =~= m.endpoints);
}

/// A send to a full endpoint is refused and changes nothing.
pub proof fn lemma_full_endpoint_refuses(m: IpcModel, handle: usize, msg: Seq<u8>)
    requires
        m.inv(),
        m.is_live(handle as int),
        m.endpoint(handle as int).queue.len() == RB_CAPACITY,
    ensures
        m.step_send(handle, msg) == (m, Err::<usize, Errno>(Errno::EUNKN)),
{
    let ep: EndpointModel = m.endpoint(handle as int);
    assert(m.endpoints.update(handle as int, Some(ep)) =~= m.endpoints);
}

/// Once a name is unregistered, its handle no longer reaches an endpoint: sends
/// and receives on it fail with `EUNKN` until the handle is given out again.
pub proof fn lemma_unregistered_handle_refused(
    m: IpcModel,
    name: Seq<char>,
    msg: Seq<u8>,
    recv_len: nat,
)
    requires
        m.inv(),
        m.registry.contains_key(name),
    ensures
        m.step_unregister(name).0.step_send(m.registry[name], msg).1 == Err::<usize, Errno>(
            Errno::EUNKN,
        ),
        m.step_unregister(name).0.step_receive(m.registry[name], recv_len).1 == Err::<
            usize,
            Errno,
        >(Errno::EUNKN),
{
    assert(m.is_live(m.registry[name] as int));
}

/// The state right after initialisation has no name, no endpoint and no free slot.
pub proof fn lemma_empty_state()
    ensures
        IpcModel::empty().registry.dom() == Set::<Seq<char>>::empty(),
        IpcModel::empty().endpoints.len() == 0,
        IpcModel::empty().free_slots.len() == 0,
{
    assert(IpcModel::empty().registry.dom() =~= Set::<Seq<char>>::empty());
}

/// A send to an endpoint that has room queues the message behind the others and
/// succeeds with 0; a send to a full endpoint is refused with `EUNKN` and leaves
/// the endpoint as it was. The name never changes.
pub proof fn lemma_endpoint_send(e: EndpointModel, msg: Seq<u8>)
    ensures
        e.after_send(msg).0.name == e.name,
        e.queue.len() < RB_CAPACITY ==> e.after_send(msg).1 == Ok::<usize, Errno>(0)
            && e.after_send(msg).0.queue == e.queue.push(msg),
        e.queue.len() >= RB_CAPACITY ==> e.after_send(msg) == (e, Err::<usize, Errno>(Errno::EUNKN)),
{
}

/// A receive from an empty endpoint fails with `ERBEMPTY` whatever the buffer
/// size; one whose oldest message is longer than the buffer fails with `ERRCV`;
/// both leave the endpoint as it was. Otherwise the oldest message leaves and its
/// length is returned. The name never changes.
pub proof fn lemma_endpoint_receive(e: EndpointModel, recv_len: nat)
    ensures
        e.after_receive(recv_len).0.name == e.name,
        e.queue.len() == 0 ==> e.after_receive(recv_len) == (e, Err::<usize, Errno>(Errno::ERBEMPTY)),
        e.queue.len() > 0 && e.queue[0].len() > recv_len ==> e.after_receive(recv_len) == (
            e,
            Err::<usize, Errno>(Errno::ERRCV),
        ),
        e.queue.len() > 0 && e.queue[0].len() <= recv_len ==> e.after_receive(recv_len).1 == Ok::<
            usize,
            Errno,
        >(e.queue[0].len() as usize) && e.after_receive(recv_len).0.queue == e.queue.subrange(
            1,
            e.queue.len() as int,
        ),
{
}

/// Registering a name that is already registered returns its handle and leaves
/// the whole state unchanged: every message queued for it survives.
pub proof fn lemma_register_existing(m: IpcModel, name: Seq<char>)
    requires
        m.inv(),
        m.registry.contains_key(name),
    ensures
        m.step_register(name) == (m, m.registry[name]),
{
}

/// Registering a new name gives it the most recently freed slot, or a new slot at
/// the end when none is free. The name then leads to that slot, which holds an
/// endpoint of that name with no message, and no other slot changes.
pub proof fn lemma_register_new(m: IpcModel, name: Seq<char>)
    requires
        m.inv(),
        !m.registry.contains_key(name),
        m.endpoints.len() <= usize::MAX,
    ensures
        m.free_slots.len() > 0 ==> m.step_register(name).1 == m.free_slots[m.free_slots.len() - 1]
            && m.step_register(name).0.free_slots == m.free_slots.subrange(
            0,
            m.free_slots.len() - 1,
        ) && m.step_register(name).0.endpoints.len() == m.endpoints.len(),
        m.free_slots.len() == 0 ==> m.step_register(name).1 == m.endpoints.len()
            && m.step_register(name).0.free_slots == m.free_slots
            && m.step_register(name).0.endpoints.len() == m.endpoints.len() + 1,
        m.step_register(name).0.registry == m.registry.insert(name, m.step_register(name).1),
        m.step_register(name).0.endpoints[m.step_register(name).1 as int] == Some(
            EndpointModel { name: name, queue: Seq::empty() },
        ),
        forall|h: int|
            0 <= h < m.endpoints.len() && h != m.step_register(name).1 ==> #[trigger] m.step_register(
                name,
            ).0.endpoints[h] == m.endpoints[h],
{
}

/// Registering, of a new name or a known one, touches no slot but the one whose
/// handle it returns.
pub proof fn lemma_register_touches_no_other(m: IpcModel, name: Seq<char>, h: int)
    requires
        m.inv(),
        m.endpoints.len() <= usize::MAX,
        0 <= h < m.endpoints.len(),
        h != m.step_register(name).1,
    ensures
        m.step_register(name).0.endpoints[h] == m.endpoints[h],
{
}

/// A lookup finds a handle exactly for registered names, and it is the handle
/// the registry holds for the name; any other name gives `EUNKN`.
pub proof fn lemma_lookup(m: IpcModel, name: Seq<char>, h: usize)
    ensures
        m.step_lookup(name) == Ok::<usize, Errno>(h) <==> m.registry.contains_key(name)
            && m.registry[name] == h,
        !m.registry.contains_key(name) ==> m.step_lookup(name) == Err::<usize, Errno>(Errno::EUNKN),
{
}

/// A send to a handle that leads to no endpoint fails with `EUNKN` and changes nothing.
pub proof fn lemma_send_dead_handle(m: IpcModel, handle: usize, msg: Seq<u8>)
    requires
        m.inv(),
        !m.is_live(handle as int),
    ensures
        m.step_send(handle, msg) == (m, Err::<usize, Errno>(Errno::EUNKN)),
{
}

/// A send to a live endpoint with room appends the message to that endpoint's
/// queue and succeeds with 0; the registry, the free slots and every other slot
/// stay as they were.
pub proof fn lemma_send_live(m: IpcModel, handle: usize, msg: Seq<u8>)
    requires
        m.inv(),
        m.is_live(handle as int),
        m.endpoint(handle as int).queue.len() < RB_CAPACITY,
    ensures
        m.step_send(handle, msg).1 == Ok::<usize, Errno>(0),
        m.step_send(handle, msg).0.endpoints[handle as int] == Some(
            EndpointModel {
                name: m.endpoint(handle as int).name,
                queue: m.endpoint(handle as int).queue.push(msg),
            },
        ),
        m.step_send(handle, msg).0.registry == m.registry,
        m.step_send(handle, msg).0.free_slots == m.free_slots,
        m.step_send(handle, msg).0.endpoints.len() == m.endpoints.len(),
        forall|h: int|
            0 <= h < m.endpoints.len() && h != handle ==> #[trigger] m.step_send(
                handle,
                msg,
            ).0.endpoints[h] == m.endpoints[h],
{
}

/// A receive from a handle that leads to no endpoint fails with `EUNKN` and
/// changes nothing.
pub proof fn lemma_receive_dead_handle(m: IpcModel, handle: usize, recv_len: nat)
    requires
        m.inv(),
        !m.is_live(handle as int),
    ensures
        m.step_receive(handle, recv_len) == (m, Err::<usize, Errno>(Errno::EUNKN)),
{
}

/// A receive from a live endpoint with no message fails with `ERBEMPTY`, whatever
/// the buffer size, and changes nothing.
pub proof fn lemma_receive_empty(m: IpcModel, handle: usize, recv_len: nat)
    requires
        m.inv(),
        m.is_live(handle as int),
        m.endpoint(handle as int).queue.len() == 0,
    ensures
        m.step_receive(handle, recv_len) == (m, Err::<usize, Errno>(Errno::ERBEMPTY)),
{
    let ep: EndpointModel = m.endpoint(handle as int);
    assert(m.endpoints.update(handle as int, Some(ep)) =~= m.endpoints);
}

/// A receive whose buffer holds the oldest message returns that message's length
/// and removes it from the front of that endpoint's queue; the registry, the free
/// slots and every other slot stay as they were.
pub proof fn lemma_receive_fits(m: IpcModel, handle: usize, recv_len: nat)
    requires
        m.inv(),
        m.is_live(handle as int),
        m.endpoint(handle as int).queue.len() > 0,
        m.endpoint(handle as int).queue[0].len() <= recv_len,
    ensures
        m.step_receive(handle, recv_len).1 == Ok::<usize, Errno>(
            m.endpoint(handle as int).queue[0].len() as usize,
        ),
        m.step_receive(handle, recv_len).0.endpoints[handle as int] == Some(
            EndpointModel {
                name: m.endpoint(handle as int).name,
                queue: m.endpoint(handle as int).queue.subrange(
                    1,
                    m.endpoint(handle as int).queue.len() as int,
                ),
            },
        ),
        m.step_receive(handle, recv_len).0.registry == m.registry,
        m.step_receive(handle, recv_len).0.free_slots == m.free_slots,
        m.step_receive(handle, recv_len).0.endpoints.len() == m.endpoints.len(),
        forall|h: int|
            0 <= h < m.endpoints.len() && h != handle ==> #[trigger] m.step_receive(
                handle,
                recv_len,
            ).0.endpoints[h] == m.endpoints[h],
{
}

/// Unregistering an unknown name fails with `EUNKN` and changes nothing.
pub proof fn lemma_unregister_unknown(m: IpcModel, name: Seq<char>)
    requires
        !m.registry.contains_key(name),
    ensures
        m.step_unregister(name) == (m, Err::<(), Errno>(Errno::EUNKN)),
{
}

/// Unregistering a known name succeeds: the name leaves the registry, its slot is
/// emptied and pushed on the free stack, and every other slot stays as it was.
pub proof fn lemma_unregister_known(m: IpcModel, name: Seq<char>)
    requires
        m.inv(),
        m.registry.contains_key(name),
    ensures
        m.step_unregister(name).1 == Ok::<(), Errno>(()),
        m.step_unregister(name).0.registry == m.registry.remove(name),
        m.step_unregister(name).0.endpoints.len() == m.endpoints.len(),
        m.step_unregister(name).0.endpoints[m.registry[name] as int] is None,
        m.step_unregister(name).0.free_slots == m.free_slots.push(m.registry[name]),
        forall|h: int|
            0 <= h < m.endpoints.len() && h != m.registry[name] ==> #[trigger] m.step_unregister(
                name,
            ).0.endpoints[h] == m.endpoints[h],
{
    assert(m.is_live(m.registry[name] as int));
}

/// Unregistering touches only the slot of that name.
pub proof fn lemma_unregister_touches_only_its_endpoint(m: IpcModel, name: Seq<char>, other: int)
    requires
        m.inv(),
        m.registry.contains_key(name),
        0 <= other < m.endpoints.len(),
        other != m.registry[name],
    ensures
        m.step_unregister(name).0.endpoints[other] == m.endpoints[other],
{
    lemma_unregister_known(m, name);
}

} // verus!
