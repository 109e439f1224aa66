use vstd::prelude::*;

use crate::endpoint::EndpointModel;
use crate::endpoint::RB_CAPACITY;
use crate::ipc::Errno;

verus! {

/// The abstract state of the IPC system: the name registry, the endpoint slots
/// (a freed slot is `None`), and the stack of freed slots that new endpoints reuse.
pub struct IpcModel {
    pub registry: Map<Seq<char>, usize>,
    pub endpoints: Seq<Option<EndpointModel>>,
    pub free_slots: Seq<usize>,
}

impl IpcModel {
    /// The state right after initialisation: nothing registered.
    pub open spec fn empty() -> IpcModel {
        IpcModel { registry: Map::empty(), endpoints: Seq::empty(), free_slots: Seq::empty() }
    }

    /// `handle` names an endpoint that currently exists.
    pub open spec fn is_live(self, handle: int) -> bool {
        0 <= handle < self.endpoints.len() && self.endpoints[handle] is Some
    }

    /// The endpoint behind a live handle.
    pub open spec fn endpoint(self, handle: int) -> EndpointModel {
        self.endpoints[handle]->Some_0
    }

    /// Every registered name leads to a live endpoint of that name, every live
    /// endpoint is registered under its name, the free slots are exactly the empty
    /// ones (each listed once), and no queue holds more than `RB_CAPACITY` messages.
    pub open spec fn inv(self) -> bool {
        &&& forall|n: Seq<char>|
            #[trigger] self.registry.contains_key(n) ==> self.is_live(self.registry[n] as int)
                && self.endpoint(self.registry[n] as int).name == n
        &&& forall|h: int|
            #[trigger] self.is_live(h) ==> self.registry.contains_key(self.endpoint(h).name)
                && self.registry[self.endpoint(h).name] == h
        &&& forall|h: usize|
            #![trigger self.free_slots.contains(h)]
            #![trigger self.endpoints[h as int]]
            h < self.endpoints.len() ==> (self.endpoints[h as int] is None
                <==> self.free_slots.contains(h))
        &&& forall|i: int|
            0 <= i < self.free_slots.len() ==> #[trigger] self.free_slots[i] < self.endpoints.len()
        &&& self.free_slots.no_duplicates()
        &&& forall|h: int| #[trigger] self.is_live(h) ==> self.endpoint(h).queue.len() <= RB_CAPACITY
    }

    /// Registering `name`: a known name keeps its handle and changes nothing; a new
    /// name gets an empty endpoint in the most recently freed slot, or in a new slot
    /// at the end when none is free. Returns the state after and the handle.
    pub open spec fn step_register(self, name: Seq<char>) -> (IpcModel, usize) {
        if self.registry.contains_key(name) {
            (self, self.registry[name])
        } else {
            let ep = EndpointModel { name: name, queue: Seq::empty() };
            if self.free_slots.len() > 0 {
                let id = self.free_slots.last();
                (
                    IpcModel {
                        registry: self.registry.insert(name, id),
                        endpoints: self.endpoints.update(id as int, Some(ep)),
                        free_slots: self.free_slots.drop_last(),
                    },
                    id,
                )
            } else {
                let id = self.endpoints.len() as usize;
                (
                    IpcModel {
                        registry: self.registry.insert(name, id),
                        endpoints: self.endpoints.push(Some(ep)),
                        free_slots: self.free_slots,
                    },
                    id,
                )
            }
        }
    }

    /// Looking up `name`: its handle, or `EUNKN` when it is not registered.
    pub open spec fn step_lookup(self, name: Seq<char>) -> Result<usize, Errno> {
        if self.registry.contains_key(name) {
            Ok(self.registry[name])
        } else {
            Err(Errno::EUNKN)
        }
    }

    /// Sending `msg` to `handle`: an unknown handle gives `EUNKN`; otherwise the
    /// endpoint takes the message as `EndpointModel::after_send` says.
    pub open spec fn step_send(self, handle: usize, msg: Seq<u8>) -> (IpcModel, Result<usize, Errno>) {
        if self.is_live(handle as int) {
            let (ep, r) = self.endpoint(handle as int).after_send(msg);
            (
                IpcModel {
                    registry: self.registry,
                    endpoints: self.endpoints.update(handle as int, Some(ep)),
                    free_slots: self.free_slots,
                },
                r,
            )
        } else {
            (self, Err(Errno::EUNKN))
        }
    }

    /// Receiving from `handle` into a buffer of `recv_len` bytes: an unknown handle
    /// gives `EUNKN`; otherwise the endpoint gives up its oldest message as
    /// `EndpointModel::after_receive` says.
    pub open spec fn step_receive(self, handle: usize, recv_len: nat) -> (
        IpcModel,
        Result<usize, Errno>,
    ) {
        if self.is_live(handle as int) {
            let (ep, r) = self.endpoint(handle as int).after_receive(recv_len);
            (
                IpcModel {
                    registry: self.registry,
                    endpoints: self.endpoints.update(handle as int, Some(ep)),
                    free_slots: self.free_slots,
                },
                r,
            )
        } else {
            (self, Err(Errno::EUNKN))
        }
    }

    /// Unregistering `name`: an unknown name gives `EUNKN`; otherwise the name
    /// leaves the registry, its endpoint (and every queued message) is dropped and
    /// its slot goes on top of the free stack.
    pub open spec fn step_unregister(self, name: Seq<char>) -> (IpcModel, Result<(), Errno>) {
        if self.registry.contains_key(name) {
            let id = self.registry[name];
            if id < self.endpoints.len() {
                (
                    IpcModel {
                        registry: self.registry.remove(name),
                        endpoints: self.endpoints.update(id as int, None),
                        free_slots: self.free_slots.push(id),
                    },
                    Ok(()),
                )
            } else {
                (
                    IpcModel {
                        registry: self.registry.remove(name),
                        endpoints: self.endpoints,
                        free_slots: self.free_slots,
                    },
                    Ok(()),
                )
            }
        } else {
            (self, Err(Errno::EUNKN))
        }
    }
}

/// The empty state satisfies the invariant.
pub proof fn lemma_empty_inv()
    ensures
        IpcModel::empty().inv(),
{
}

/// Registering keeps the invariant.
pub proof fn lemma_register_inv(m: IpcModel, name: Seq<char>)
    requires
        m.inv(),
        m.endpoints.len() <= usize::MAX,
    ensures
        m.step_register(name).0.inv(),
{
    if !m.registry.contains_key(name) {
        let (m2, id) = m.step_register(name);
        if m.free_slots.len() > 0 {
            let last = m.free_slots.len() - 1;
            assert(m.free_slots[last] == id);
            assert(m.free_slots.contains(id));
            assert(m.endpoints[id as int] is None);
            assert forall|h: usize|
                #![trigger m2.free_slots.contains(h)]
                #![trigger m2.endpoints[h as int]]
                h < m2.endpoints.len() implies (m2.endpoints[h as int] is None
                <==> m2.free_slots.contains(h)) by {
                if h == id {
                    if m2.free_slots.contains(h) {
                        let i = choose|i: int| 0 <= i < m2.free_slots.len() && m2.free_slots[i] == h;
                        assert(m.free_slots[i] == m.free_slots[last]);
                    }
                } else {
                    assert(m.endpoints[h as int] == m2.endpoints[h as int]);
                    if m.free_slots.contains(h) {
                        let i = choose|i: int| 0 <= i < m.free_slots.len() && m.free_slots[i] == h;
                        assert(i != last);
                        assert(m2.free_slots[i] == h);
                    }
                    if m2.free_slots.contains(h) {
                        let i = choose|i: int| 0 <= i < m2.free_slots.len() && m2.free_slots[i] == h;
                        assert(m.free_slots[i] == h);
                    }
                }
            }
            assert forall|n: Seq<char>| #[trigger] m2.registry.contains_key(n) implies m2.is_live(
                m2.registry[n] as int,
            ) && m2.endpoint(m2.registry[n] as int).name == n by {
                if n != name {
                    assert(m.registry.contains_key(n));
                    assert(m.is_live(m.registry[n] as int));
                    assert(m.registry[n] != id);
                }
            }
            assert forall|h: int| #[trigger] m2.is_live(h) implies m2.registry.contains_key(
                m2.endpoint(h).name,
            ) && m2.registry[m2.endpoint(h).name] == h by {
                if h != id {
                    assert(m.is_live(h));
                    assert(m.endpoint(h) == m2.endpoint(h));
                    assert(m.registry.contains_key(m.endpoint(h).name));
                }
            }
            assert forall|h: int| #[trigger] m2.is_live(h) implies m2.endpoint(h).queue.len()
                <= RB_CAPACITY by {
                if h != id {
                    assert(m.is_live(h));
                }
            }
        } else {
            assert forall|h: usize|
                #![trigger m2.free_slots.contains(h)]
                #![trigger m2.endpoints[h as int]]
                h < m2.endpoints.len() implies (m2.endpoints[h as int] is None
                <==> m2.free_slots.contains(h)) by {
                if h < m.endpoints.len() {
                    assert(m.endpoints[h as int] == m2.endpoints[h as int]);
                    assert(m.endpoints[h as int] is None <==> m.free_slots.contains(h));
                }
            }
            assert forall|n: Seq<char>| #[trigger] m2.registry.contains_key(n) implies m2.is_live(
                m2.registry[n] as int,
            ) && m2.endpoint(m2.registry[n] as int).name == n by {
                if n != name {
                    assert(m.registry.contains_key(n));
                    assert(m.is_live(m.registry[n] as int));
                    assert(m2.endpoints[m.registry[n] as int] == m.endpoints[m.registry[n] as int]);
                } else {
                    assert(m2.endpoints[id as int] == Some(EndpointModel { name: name, queue: Seq::empty() }));
                }
            }
            assert forall|h: int| #[trigger] m2.is_live(h) implies m2.registry.contains_key(
                m2.endpoint(h).name,
            ) && m2.registry[m2.endpoint(h).name] == h by {
                if h != id {
                    assert(m2.endpoints[h] == m.endpoints[h]);
                    assert(m.is_live(h));
                    assert(m.registry.contains_key(m.endpoint(h).name));
                }
            }
            assert forall|h: int| #[trigger] m2.is_live(h) implies m2.endpoint(h).queue.len()
                <= RB_CAPACITY by {
                if h != id {
                    assert(m.is_live(h));
                }
            }
        }
    }
}

/// Replacing the endpoint behind a live handle by one of the same name and a queue
/// within bounds keeps the invariant.
proof fn lemma_replace_endpoint_inv(m: IpcModel, handle: int, ep: EndpointModel)
    requires
        m.inv(),
        m.is_live(handle),
        ep.name == m.endpoint(handle).name,
        ep.queue.len() <= RB_CAPACITY,
    ensures
        (IpcModel {
            registry: m.registry,
            endpoints: m.endpoints.update(handle, Some(ep)),
            free_slots: m.free_slots,
        }).inv(),
{
    let m2 = IpcModel {
        registry: m.registry,
        endpoints: m.endpoints.update(handle, Some(ep)),
        free_slots: m.free_slots,
    };
    assert forall|h: int| #[trigger] m2.is_live(h) <==> m.is_live(h) by {}
    assert forall|n: Seq<char>| #[trigger] m2.registry.contains_key(n) implies m2.is_live(
        m2.registry[n] as int,
    ) && m2.endpoint(m2.registry[n] as int).name == n by {
        assert(m.is_live(m.registry[n] as int));
    }
    assert forall|h: int| #[trigger] m2.is_live(h) implies m2.registry.contains_key(
        m2.endpoint(h).name,
    ) && m2.registry[m2.endpoint(h).name] == h by {
        assert(m.is_live(h));
    }
    assert forall|h: int| #[trigger] m2.is_live(h) implies m2.endpoint(h).queue.len()
        <= RB_CAPACITY by {
        assert(m.is_live(h));
    }
    assert forall|h: usize|
        #![trigger m2.free_slots.contains(h)]
        #![trigger m2.endpoints[h as int]]
        h < m2.endpoints.len() implies (m2.endpoints[h as int] is None
        <==> m2.free_slots.contains(h)) by {
        assert(m.endpoints[h as int] is None <==> m.free_slots.contains(h));
    }
}

/// Sending keeps the invariant.
pub proof fn lemma_send_inv(m: IpcModel, handle: usize, msg: Seq<u8>)
    requires
        m.inv(),
    ensures
        m.step_send(handle, msg).0.inv(),
{
    if m.is_live(handle as int) {
        lemma_replace_endpoint_inv(m, handle as int, m.endpoint(handle as int).after_send(msg).0);
    }
}

/// Receiving keeps the invariant.
pub proof fn lemma_receive_inv(m: IpcModel, handle: usize, recv_len: nat)
    requires
        m.inv(),
    ensures
        m.step_receive(handle, recv_len).0.inv(),
{
    if m.is_live(handle as int) {
        assert(m.is_live(handle as int));
        lemma_replace_endpoint_inv(
            m,
            handle as int,
            m.endpoint(handle as int).after_receive(recv_len).0,
        );
    }
}

/// Unregistering keeps the invariant.
pub proof fn lemma_unregister_inv(m: IpcModel, name: Seq<char>)
    requires
        m.inv(),
    ensures
        m.step_unregister(name).0.inv(),
{
    if m.registry.contains_key(name) {
        let id = m.registry[name];
        let m2 = m.step_unregister(name).0;
        assert(m.is_live(id as int));
        assert(!m.free_slots.contains(id));
        assert(m2.free_slots.no_duplicates()) by {
            assert forall|i: int, j: int|
                0 <= i < m2.free_slots.len() && 0 <= j < m2.free_slots.len() && i != j implies m2.free_slots[i]
                != m2.free_slots[j] by {
                let last = m.free_slots.len() as int;
                if i == last {
                    assert(m.free_slots[j] == m2.free_slots[j]);
                } else if j == last {
                    assert(m.free_slots[i] == m2.free_slots[i]);
                } else {
                    assert(m.free_slots[i] == m2.free_slots[i]);
                    assert(m.free_slots[j] == m2.free_slots[j]);
                }
            }
        }
        assert forall|h: usize|
            #![trigger m2.free_slots.contains(h)]
            #![trigger m2.endpoints[h as int]]
            h < m2.endpoints.len() implies (m2.endpoints[h as int] is None
            <==> m2.free_slots.contains(h)) by {
            if h == id {
                assert(m2.free_slots[m.free_slots.len() as int] == h);
            } else {
                assert(m.endpoints[h as int] == m2.endpoints[h as int]);
                if m.free_slots.contains(h) {
                    let i = choose|i: int| 0 <= i < m.free_slots.len() && m.free_slots[i] == h;
                    assert(m2.free_slots[i] == h);
                }
                if m2.free_slots.contains(h) {
                    let i = choose|i: int| 0 <= i < m2.free_slots.len() && m2.free_slots[i] == h;
                    assert(i < m.free_slots.len());
                    assert(m.free_slots[i] == h);
                }
            }
        }
        assert forall|i: int|
            0 <= i < m2.free_slots.len() implies #[trigger] m2.free_slots[i] < m2.endpoints.len() by {
            if i < m.free_slots.len() {
                assert(m.free_slots[i] == m2.free_slots[i]);
            }
        }
        assert forall|n: Seq<char>| #[trigger] m2.registry.contains_key(n) implies m2.is_live(
            m2.registry[n] as int,
        ) && m2.endpoint(m2.registry[n] as int).name == n by {
            assert(m.registry.contains_key(n));
            assert(m.is_live(m.registry[n] as int));
            assert(m.registry[n] != id);
        }
        assert forall|h: int| #[trigger] m2.is_live(h) implies m2.registry.contains_key(
            m2.endpoint(h).name,
        ) && m2.registry[m2.endpoint(h).name] == h by {
            assert(h != id);
            assert(m.endpoints[h] == m2.endpoints[h]);
            assert(m.is_live(h));
            assert(m.registry.contains_key(m.endpoint(h).name));
        }
        assert forall|h: int| #[trigger] m2.is_live(h) implies m2.endpoint(h).queue.len()
            <= RB_CAPACITY by {
            assert(m.endpoints[h] == m2.endpoints[h]);
            assert(m.is_live(h));
        }
    }
}

} // verus!
