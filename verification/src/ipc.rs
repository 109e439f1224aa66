use vstd::prelude::*;

pub use crate::endpoint::Endpoint;
pub use crate::endpoint::EndpointModel;
pub use crate::endpoint::RB_CAPACITY;
pub use crate::model::IpcModel;

use crate::model::lemma_receive_inv;
use crate::model::lemma_register_inv;
use crate::model::lemma_send_inv;
use crate::model::lemma_unregister_inv;
use crate::registry::lemma_registry_absent;
use crate::registry::lemma_registry_lookup;
use crate::registry::lemma_registry_push;
use crate::registry::lemma_registry_remove;
use crate::registry::names_distinct;
use crate::registry::registry_map;

verus! {

/// Errors of the IPC system calls.
#[derive(Clone, Copy, Debug, PartialEq, Eq, Structural)]
pub enum Errno {
    /// Unknown handle or name, full queue, or an uninitialised IPC system.
    EUNKN,
    /// A name was given by a null pointer.
    ENOTDIR,
    /// A name was not valid UTF-8.
    EBADSTR,
    /// The endpoint's queue holds no message.
    ERBEMPTY,
    /// The receive buffer is smaller than the next message.
    ERRCV,
}

/// The abstract content of each endpoint slot.
pub open spec fn endpoint_models(eps: Seq<Option<Endpoint>>) -> Seq<Option<EndpointModel>> {
    eps.map_values(
        |o: Option<Endpoint>|
            match o {
                Some(e) => Some(e@),
                None => None,
            },
    )
}

/// The state of the IPC system: the name registry, the endpoint slots, and the
/// stack of freed slots.
pub struct IpcState {
    registry: Vec<(String, usize)>,
    endpoints: Vec<Option<Endpoint>>,
    free_slots: Vec<usize>,
}

impl View for IpcState {
    type V = IpcModel;

    open spec fn view(&self) -> IpcModel {
        self.model()
    }
}

impl IpcState {
    /// The registry's entries as names and handles.
    closed spec fn entries(&self) -> Seq<(Seq<char>, usize)> {
        self.registry@.map_values(|p: (String, usize)| (p.0@, p.1))
    }

    /// The abstract state.
    pub closed spec fn model(&self) -> IpcModel {
        IpcModel {
            registry: registry_map(self.entries()),
            endpoints: endpoint_models(self.endpoints@),
            free_slots: self.free_slots@,
        }
    }

    /// The abstract invariant holds, no name is listed twice, and every endpoint's
    /// queue is a well-formed ring of `RB_CAPACITY` slots.
    pub closed spec fn wf(&self) -> bool {
        &&& names_distinct(self.entries())
        &&& self@.inv()
        &&& forall|h: int|
            0 <= h < self.endpoints@.len() && #[trigger] self.endpoints@[h] is Some
                ==> self.endpoints@[h]->Some_0.wf()
    }

    /// A state with nothing registered.
    pub fn new() -> (s: Self)
        ensures
            s.wf(),
            s@ == IpcModel::empty(),
    {
        let s = IpcState { registry: Vec::new(), endpoints: Vec::new(), free_slots: Vec::new() };
        assert(s.entries() =~= Seq::empty());
        assert(registry_map(s.entries()) =~= Map::empty());
        assert(endpoint_models(s.endpoints@) =~= Seq::empty());
        s
    }

    /// The position of `key` in the registry's list.
    fn find(&self, key: &String) -> (r: Option<usize>)
        ensures
            r matches Some(k) ==> k < self.registry@.len() && self.entries()[k as int].0 == key@,
            r is None ==> forall|k: int|
                0 <= k < self.entries().len() ==> (#[trigger] self.entries()[k]).0 != key@,
    {
        let mut i: usize = 0;
        while i < self.registry.len()
            invariant
                i <= self.registry@.len(),
                forall|k: int| 0 <= k < i ==> (#[trigger] self.entries()[k]).0 != key@,
            decreases self.registry@.len() - i,
        {
            if self.registry[i].0 == *key {
                return Some(i);
            }
            i = i + 1;
        }
        None
    }

    /// Registers `name` and returns its handle; a name already registered keeps
    /// the handle it has.
    pub fn register(&mut self, name: &str) -> (id: usize)
        requires
            old(self).wf(),
        ensures
            final(self).wf(),
            (final(self)@, id) == old(self)@.step_register(name@),
    {
        let key = name.to_string();
        if let Some(k) = self.find(&key) {
            proof {
                lemma_registry_lookup(self.entries(), k as int);
            }
            return self.registry[k].1;
        }
        proof {
            lemma_registry_absent(self.entries(), name@);
        }
        let ghost old_self = *self;
        let endpoint = Endpoint::new(name.to_string());
        let id = match self.free_slots.pop() {
            Some(free_id) => {
                proof {
                    assert(old_self.free_slots@[old_self.free_slots@.len() - 1] == free_id);
                }
                self.endpoints[free_id] = Some(endpoint);
                free_id
            },
            None => {
                let new_id = self.endpoints.len();
                self.endpoints.push(Some(endpoint));
                new_id
            },
        };
        self.registry.push((key, id));
        proof {
            let m = old_self@;
            assert(old_self.endpoints.len() == m.endpoints.len());
            lemma_register_inv(m, name@);
            assert(self.entries() =~= old_self.entries().push((name@, id)));
            lemma_registry_push(old_self.entries(), name@, id);
            let (m2, id2) = m.step_register(name@);
            assert(id == id2);
            assert(self@.endpoints =~= m2.endpoints);
            assert(self@.free_slots =~= m2.free_slots);
            assert forall|h: int|
                0 <= h < self.endpoints@.len() && #[trigger] self.endpoints@[h] is Some
                    implies self.endpoints@[h]->Some_0.wf() by {
                if h != id {
                    assert(self.endpoints@[h] == old_self.endpoints@[h]);
                }
            }
        }
        id
    }

    /// The handle registered under `name`.
    pub fn lookup(&self, name: &str) -> (r: Result<usize, Errno>)
        requires
            self.wf(),
        ensures
            r == self@.step_lookup(name@),
    {
        let key = name.to_string();
        match self.find(&key) {
            Some(k) => {
                proof {
                    lemma_registry_lookup(self.entries(), k as int);
                }
                Ok(self.registry[k].1)
            },
            None => {
                proof {
                    lemma_registry_absent(self.entries(), name@);
                }
                Err(Errno::EUNKN)
            },
        }
    }
    /// Queues a copy of `msg` at the endpoint behind `handle`.
    pub fn send_msg(&mut self, handle: usize, msg: &[u8]) -> (r: Result<usize, Errno>)
        requires
            old(self).wf(),
        ensures
            final(self).wf(),
            (final(self)@, r) == old(self)@.step_send(handle, msg@),
    {
        if handle >= self.endpoints.len() {
            return Err(Errno::EUNKN);
        }
        let ghost old_self = *self;
        let mut copy: Vec<u8> = Vec::new();
        let mut i: usize = 0;
        while i < msg.len()
            invariant
                i <= msg@.len(),
                copy@ == msg@.subrange(0, i as int),
            decreases msg@.len() - i,
        {
            copy.push(msg[i]);
            i = i + 1;
            assert(copy@ =~= msg@.subrange(0, i as int));
        }
        assert(copy@ =~= msg@);
        let r = match &mut self.endpoints[handle] {
            Some(ep) => {
                proof {
                    assert(old_self@.is_live(handle as int));
                    assert(old_self.endpoints@[handle as int]->Some_0.wf());
                }
                ep.add_msg(copy)
            },
            None => Err(Errno::EUNKN),
        };
        proof {
            let m = old_self@;
            lemma_send_inv(m, handle, msg@);
            assert(self@.endpoints =~= m.step_send(handle, msg@).0.endpoints);
            assert forall|h: int|
                0 <= h < self.endpoints@.len() && #[trigger] self.endpoints@[h] is Some
                    implies self.endpoints@[h]->Some_0.wf() by {
                if h != handle {
                    assert(self.endpoints@[h] == old_self.endpoints@[h]);
                }
            }
        }
        r
    }

    /// Takes the oldest message of the endpoint behind `handle` into `buff`, as
    /// `Endpoint::get_msg` does.
    pub fn receive_msg(&mut self, handle: usize, buff: &mut Vec<u8>, recv_len: usize) -> (r: Result<
        usize,
        Errno,
    >)
        requires
            old(self).wf(),
            recv_len <= old(buff)@.len(),
        ensures
            final(self).wf(),
            (final(self)@, r) == old(self)@.step_receive(handle, recv_len as nat),
            r is Err ==> final(buff)@ == old(buff)@,
            r matches Ok(n) ==> final(buff)@ == old(self)@.endpoint(handle as int).queue[0]
                + old(buff)@.subrange(n as int, old(buff)@.len() as int),
    {
        if handle >= self.endpoints.len() {
            return Err(Errno::EUNKN);
        }
        let ghost old_self = *self;
        let r = match &mut self.endpoints[handle] {
            Some(ep) => {
                proof {
                    assert(old_self@.is_live(handle as int));
                    assert(old_self.endpoints@[handle as int]->Some_0.wf());
                }
                ep.get_msg(buff, recv_len)
            },
            None => Err(Errno::EUNKN),
        };
        proof {
            let m = old_self@;
            lemma_receive_inv(m, handle, recv_len as nat);
            assert(self@.endpoints =~= m.step_receive(handle, recv_len as nat).0.endpoints);
            assert forall|h: int|
                0 <= h < self.endpoints@.len() && #[trigger] self.endpoints@[h] is Some
                    implies self.endpoints@[h]->Some_0.wf() by {
                if h != handle {
                    assert(self.endpoints@[h] == old_self.endpoints@[h]);
                }
            }
        }
        r
    }

    /// Removes `name` from the registry, drops its endpoint with every queued
    /// message, and keeps its slot for reuse.
    pub fn unregister(&mut self, name: &str) -> (r: Result<(), Errno>)
        requires
            old(self).wf(),
        ensures
            final(self).wf(),
            (final(self)@, r) == old(self)@.step_unregister(name@),
    {
        let key = name.to_string();
        match self.find(&key) {
            Some(k) => {
                let ghost old_self = *self;
                proof {
                    lemma_registry_lookup(self.entries(), k as int);
                    lemma_registry_remove(self.entries(), k as int);
                }
                let (_, id) = self.registry.remove(k);
                assert(self.entries() =~= old_self.entries().remove(k as int));
                if id < self.endpoints.len() {
                    self.endpoints[id] = None;
                    self.free_slots.push(id);
                }
                proof {
                    let m = old_self@;
                    lemma_unregister_inv(m, name@);
                    assert(self@.endpoints =~= m.step_unregister(name@).0.endpoints);
                    assert forall|h: int|
                        0 <= h < self.endpoints@.len() && #[trigger] self.endpoints@[h] is Some
                            implies self.endpoints@[h]->Some_0.wf() by {
                        assert(self.endpoints@[h] == old_self.endpoints@[h]);
                    }
                }
                Ok(())
            },
            None => {
                proof {
                    lemma_registry_absent(self.entries(), name@);
                }
                Err(Errno::EUNKN)
            },
        }
    }
}

/// The IPC system is either not initialised (`None`) or in a well-formed state.
pub open spec fn ipc_ready(ipc: Option<IpcState>) -> bool {
    ipc matches Some(s) ==> s.wf()
}

/// Initialises the IPC system once; a second call leaves it as it is.
pub fn init(ipc: &mut Option<IpcState>)
    requires
        ipc_ready(*old(ipc)),
    ensures
        ipc_ready(*final(ipc)),
        *final(ipc) is Some,
        *old(ipc) is Some ==> *final(ipc) == *old(ipc),
        *old(ipc) is None ==> final(ipc)->Some_0@ == IpcModel::empty(),
{
    if ipc.is_none() {
        *ipc = Some(IpcState::new());
    }
}

/// Registers a new endpoint name and returns its handle; a registered name keeps
/// its handle. Fails with `EUNKN` before initialisation.
pub fn register(ipc: &mut Option<IpcState>, name: &str) -> (r: Result<usize, Errno>)
    requires
        ipc_ready(*old(ipc)),
    ensures
        ipc_ready(*final(ipc)),
        *old(ipc) is None ==> *final(ipc) is None && r == Err::<usize, Errno>(Errno::EUNKN),
        *old(ipc) is Some ==> *final(ipc) is Some && final(ipc)->Some_0@ == old(
            ipc,
        )->Some_0@.step_register(name@).0 && r == Ok::<usize, Errno>(
            old(ipc)->Some_0@.step_register(name@).1,
        ),
{
    match ipc {
        Some(state) => Ok(state.register(name)),
        None => Err(Errno::EUNKN),
    }
}

/// The handle registered under `name`. Fails with `EUNKN` before initialisation.
pub fn lookup(ipc: &Option<IpcState>, name: &str) -> (r: Result<usize, Errno>)
    requires
        ipc_ready(*ipc),
    ensures
        ipc is None ==> r == Err::<usize, Errno>(Errno::EUNKN),
        ipc is Some ==> r == ipc->Some_0@.step_lookup(name@),
{
    match ipc {
        Some(state) => state.lookup(name),
        None => Err(Errno::EUNKN),
    }
}

/// Sends a copy of `msg` to the endpoint behind `handle`. Fails with `EUNKN`
/// before initialisation.
pub fn send_msg(ipc: &mut Option<IpcState>, handle: usize, msg: &[u8]) -> (r: Result<
    usize,
    Errno,
>)
    requires
        ipc_ready(*old(ipc)),
    ensures
        ipc_ready(*final(ipc)),
        *old(ipc) is None ==> *final(ipc) is None && r == Err::<usize, Errno>(Errno::EUNKN),
        *old(ipc) is Some ==> *final(ipc) is Some && (final(ipc)->Some_0@, r) == old(
            ipc,
        )->Some_0@.step_send(handle, msg@),
{
    match ipc {
        Some(state) => state.send_msg(handle, msg),
        None => Err(Errno::EUNKN),
    }
}

/// Receives the oldest message of the endpoint behind `handle` into `buff`.
/// Fails with `EUNKN` before initialisation.
pub fn receive_msg(ipc: &mut Option<IpcState>, handle: usize, buff: &mut Vec<u8>, recv_len: usize) -> (r:
    Result<usize, Errno>)
    requires
        ipc_ready(*old(ipc)),
        recv_len <= old(buff)@.len(),
    ensures
        ipc_ready(*final(ipc)),
        *old(ipc) is None ==> *final(ipc) is None && r == Err::<usize, Errno>(Errno::EUNKN),
        *old(ipc) is Some ==> *final(ipc) is Some && (final(ipc)->Some_0@, r) == old(
            ipc,
        )->Some_0@.step_receive(handle, recv_len as nat),
        r is Err ==> final(buff)@ == old(buff)@,
        r matches Ok(n) ==> final(buff)@ == old(ipc)->Some_0@.endpoint(handle as int).queue[0]
            + old(buff)@.subrange(n as int, old(buff)@.len() as int),
{
    match ipc {
        Some(state) => state.receive_msg(handle, buff, recv_len),
        None => Err(Errno::EUNKN),
    }
}

/// Removes `name` and frees its endpoint. Fails with `EUNKN` before initialisation.
pub fn unregister(ipc: &mut Option<IpcState>, name: &str) -> (r: Result<(), Errno>)
    requires
        ipc_ready(*old(ipc)),
    ensures
        ipc_ready(*final(ipc)),
        *old(ipc) is None ==> *final(ipc) is None && r == Err::<(), Errno>(Errno::EUNKN),
        *old(ipc) is Some ==> *final(ipc) is Some && (final(ipc)->Some_0@, r) == old(
            ipc,
        )->Some_0@.step_unregister(name@),
{
    match ipc {
        Some(state) => state.unregister(name),
        None => Err(Errno::EUNKN),
    }
}

/// A well-formed state satisfies the abstract invariant, and its slot table fits
/// in a `usize`: the laws stated over `IpcModel` apply to it.
pub proof fn lemma_wf_inv(s: &IpcState)
    requires
        s.wf(),
    ensures
        s@.inv(),
        s@.endpoints.len() <= usize::MAX,
{
    assert(s.endpoints.len() == s.endpoints@.len());
}

/// In a well-formed state, distinct registered names look up to distinct handles,
/// and each such handle reaches a live endpoint of that name, which takes a
/// message exactly when its queue has room.
pub proof fn lemma_registered_handles(s: &IpcState, n1: Seq<char>, n2: Seq<char>, msg: Seq<u8>)
    requires
        s.wf(),
        n1 != n2,
        s@.step_lookup(n1) is Ok,
        s@.step_lookup(n2) is Ok,
    ensures
        s@.step_lookup(n1)->Ok_0 != s@.step_lookup(n2)->Ok_0,
        s@.is_live(s@.step_lookup(n1)->Ok_0 as int),
        s@.endpoint(s@.step_lookup(n1)->Ok_0 as int).name == n1,
        s@.step_send(s@.step_lookup(n1)->Ok_0, msg).1 is Ok <==> s@.endpoint(
            s@.step_lookup(n1)->Ok_0 as int,
        ).queue.len() < RB_CAPACITY,
{
    lemma_wf_inv(s);
    let m = s@;
    assert(m.registry.contains_key(n1));
    assert(m.registry.contains_key(n2));
    assert(m.is_live(m.registry[n1] as int));
    assert(m.is_live(m.registry[n2] as int));
}

} // verus!
