//! The guest's table of synthetic devices, indexed by the host's device id and
//! by the descriptor of the synthetic device.
use vstd::prelude::*;
use std::collections::HashMap;

verus! {

broadcast use vstd::std_specs::hash::group_hash_axioms;

/// Stores `v` under `key`, replacing what was there, and returns the stored value.
pub fn insert_entry<V>(map: &mut HashMap<u64, V>, key: u64, v: V) -> (r: &V)
    ensures
        final(map)@ == old(map)@.insert(key, v),
        *r == v,
{
    map.insert(key, v);
    map.get(&key).unwrap()
}

/// A synthetic device and the descriptor it is read through.
pub struct GuestDevice<H> {
    pub fd: u64,
    pub handle: H,
}

pub struct GuestDevices<H> {
    inputs_by_id: HashMap<u64, GuestDevice<H>>,
    fd_to_id: HashMap<u64, u64>,
}

/// Each device's descriptor maps back to its id, and each mapped descriptor
/// belongs to the device of that id.
pub open spec fn linked<H>(by_id: Map<u64, GuestDevice<H>>, by_fd: Map<u64, u64>) -> bool {
    &&& forall|id: u64| #[trigger] by_id.contains_key(id) ==> by_fd.contains_key(by_id[id].fd)
        && by_fd[by_id[id].fd] == id
    &&& forall|fd: u64| #[trigger] by_fd.contains_key(fd) ==> by_id.contains_key(by_fd[fd])
        && by_id[by_fd[fd]].fd == fd
}

impl<H> GuestDevices<H> {
    pub closed spec fn by_id(&self) -> Map<u64, GuestDevice<H>> {
        self.inputs_by_id@
    }

    pub closed spec fn by_fd(&self) -> Map<u64, u64> {
        self.fd_to_id@
    }

    pub open spec fn wf(&self) -> bool {
        linked(self.by_id(), self.by_fd())
    }

    pub fn new() -> (r: GuestDevices<H>)
        ensures
            r.wf(),
            r.by_id() == Map::<u64, GuestDevice<H>>::empty(),
            r.by_fd() == Map::<u64, u64>::empty(),
    {
        GuestDevices { inputs_by_id: HashMap::new(), fd_to_id: HashMap::new() }
    }

    /// Takes out the device of `id`. An unknown id leaves the table as it is.
    pub fn remove(&mut self, id: u64) -> (r: Option<GuestDevice<H>>)
        requires
            old(self).wf(),
        ensures
            final(self).wf(),
            r is Some <==> old(self).by_id().contains_key(id),
            !old(self).by_id().contains_key(id) ==> final(self).by_id() == old(self).by_id()
                && final(self).by_fd() == old(self).by_fd(),
            old(self).by_id().contains_key(id) ==> r == Some(old(self).by_id()[id])
                && final(self).by_id() == old(self).by_id().remove(id) && final(self).by_fd()
                == old(self).by_fd().remove(old(self).by_id()[id].fd),
    {
        match self.inputs_by_id.remove(&id) {
            Some(dev) => {
                self.fd_to_id.remove(&dev.fd);
                Some(dev)
            },
            None => None,
        }
    }

    /// Registers the synthetic device of `id`, read through `fd`. A device
    /// registered under the same id or the same descriptor is taken out first
    /// and handed back.
    pub fn add(&mut self, id: u64, fd: u64, handle: H) -> (evicted: Vec<GuestDevice<H>>)
        requires
            old(self).wf(),
        ensures
            final(self).wf(),
            final(self).by_id() == old(self).by_id().remove(id).remove(
                if old(self).by_fd().contains_key(fd) {
                    old(self).by_fd()[fd]
                } else {
                    id
                },
            ).insert(id, GuestDevice { fd, handle }),
            forall|i: int|
                #![trigger evicted@[i]]
                0 <= i < evicted@.len() ==> exists|k: u64|
                    #[trigger] old(self).by_id().contains_key(k) && old(self).by_id()[k]
                        == evicted@[i] && (k == id || evicted@[i].fd == fd),
    {
        let ghost by_id0 = self.by_id();
        let ghost by_fd0 = self.by_fd();
        let mut evicted: Vec<GuestDevice<H>> = Vec::new();
        match self.remove(id) {
            Some(dev) => {
                evicted.push(dev);
            },
            None => {},
        }
        let other = match self.fd_to_id.get(&fd) {
            Some(k) => Some(*k),
            None => None,
        };
        match other {
            Some(k) => {
                match self.remove(k) {
                    Some(dev) => {
                        evicted.push(dev);
                    },
                    None => {},
                }
            },
            None => {},
        }
        let ghost mid = self.by_id();
        insert_entry(&mut self.inputs_by_id, id, GuestDevice { fd, handle });
        self.fd_to_id.insert(fd, id);
        assert(self.by_id() =~= by_id0.remove(id).remove(
            if by_fd0.contains_key(fd) {
                by_fd0[fd]
            } else {
                id
            },
        ).insert(id, GuestDevice { fd, handle }));
        evicted
    }

    /// The synthetic device of `id`.
    pub fn get(&self, id: u64) -> (r: Option<&H>)
        ensures
            r is Some <==> self.by_id().contains_key(id),
            r is Some ==> *r->0 == self.by_id()[id].handle,
    {
        match self.inputs_by_id.get(&id) {
            Some(dev) => Some(&dev.handle),
            None => None,
        }
    }

    /// The id of the device read through `fd`.
    pub fn id_of_fd(&self, fd: u64) -> (r: Option<u64>)
        ensures
            r is Some <==> self.by_fd().contains_key(fd),
            r is Some ==> r->0 == self.by_fd()[fd],
    {
        match self.fd_to_id.get(&fd) {
            Some(id) => Some(*id),
            None => None,
        }
    }
}

/// The id and descriptor maps of the guest are in one-to-one correspondence:
/// each is the inverse of the other.
pub proof fn lemma_guest_bijection<H>(g: &GuestDevices<H>)
    requires
        g.wf(),
    ensures
        forall|id1: u64, id2: u64|
            #[trigger] g.by_id().contains_key(id1) && #[trigger] g.by_id().contains_key(id2)
                && g.by_id()[id1].fd == g.by_id()[id2].fd ==> id1 == id2,
        forall|fd1: u64, fd2: u64|
            #[trigger] g.by_fd().contains_key(fd1) && #[trigger] g.by_fd().contains_key(fd2)
                && g.by_fd()[fd1] == g.by_fd()[fd2] ==> fd1 == fd2,
{
}

} // verus!
