//! The host's table of open joystick devices, indexed by descriptor number and
//! by kernel sysname.
use vstd::prelude::*;

verus! {

/// One open device: the descriptor number that doubles as its id, its sysname,
/// and the handle that owns the descriptor.
pub struct Entry<H> {
    pub fd: u64,
    pub name: Vec<u8>,
    pub handle: H,
}

pub ghost struct EntryModel<H> {
    pub fd: u64,
    pub name: Seq<u8>,
    pub handle: H,
}

impl<H> Entry<H> {
    pub open spec fn model(&self) -> EntryModel<H> {
        EntryModel { fd: self.fd, name: self.name@, handle: self.handle }
    }
}

pub struct Registry<H> {
    entries: Vec<Entry<H>>,
}

/// No two entries share a descriptor or a sysname.
pub open spec fn unique_keys<H>(s: Seq<EntryModel<H>>) -> bool {
    forall|i: int, j: int|
        0 <= i < s.len() && 0 <= j < s.len() && i != j ==> s[i].fd != s[j].fd && s[i].name
            != s[j].name
}

/// Sysnames of evdev nodes start with `event`.
pub open spec fn spec_is_event_node(name: Seq<u8>) -> bool {
    name.len() >= 5 && name.subrange(0, 5) == seq![0x65u8, 0x76u8, 0x65u8, 0x6eu8, 0x74u8]
}

pub fn is_event_node(name: &[u8]) -> (r: bool)
    ensures
        r == spec_is_event_node(name@),
{
    if name.len() < 5 {
        return false;
    }
    let r = name[0] == 0x65u8 && name[1] == 0x76u8 && name[2] == 0x65u8 && name[3] == 0x6eu8
        && name[4] == 0x74u8;
    assert(r == (name@.subrange(0, 5) =~= seq![0x65u8, 0x76u8, 0x65u8, 0x6eu8, 0x74u8]));
    r
}

pub fn bytes_eq(a: &[u8], b: &[u8]) -> (r: bool)
    ensures
        r == (a@ == b@),
{
    if a.len() != b.len() {
        return false;
    }
    let mut i: usize = 0;
    while i < a.len()
        invariant
            i <= a@.len(),
            a@.len() == b@.len(),
            forall|k: int| 0 <= k < i ==> a@[k] == b@[k],
        decreases a@.len() - i,
    {
        if a[i] != b[i] {
            return false;
        }
        i = i + 1;
    }
    assert(a@ =~= b@);
    true
}


/// Removing the one entry named `name` removes exactly the entries of that name.
proof fn lemma_remove_named<H>(s: Seq<EntryModel<H>>, i: int)
    requires
        unique_keys(s),
        0 <= i < s.len(),
    ensures
        unique_keys(s.remove(i)),
        s.remove(i).to_set() =~= s.to_set().filter(|e: EntryModel<H>| e.name != s[i].name),
        s.remove(i).to_set() =~= s.to_set().filter(|e: EntryModel<H>| e.fd != s[i].fd),
{
    let r = s.remove(i);
    assert forall|e: EntryModel<H>| #[trigger] r.to_set().contains(e) implies s.to_set().contains(e)
        && e.name != s[i].name && e.fd != s[i].fd by {
        let k = choose|k: int| 0 <= k < r.len() && r[k] == e;
        if k < i {
            assert(s[k] == e);
        } else {
            assert(s[k + 1] == e);
        }
    }
    assert forall|e: EntryModel<H>|
        #[trigger] s.to_set().contains(e) && (e.name != s[i].name || e.fd != s[i].fd) implies r.to_set().contains(e) by {
        let k = choose|k: int| 0 <= k < s.len() && s[k] == e;
        assert(k != i);
        if k < i {
            assert(r[k] == e);
        } else {
            assert(r[k - 1] == e);
        }
    }
}

proof fn lemma_push_new<H>(s: Seq<EntryModel<H>>, m: EntryModel<H>)
    requires
        unique_keys(s),
        forall|e: EntryModel<H>| #[trigger] s.to_set().contains(e) ==> e.fd != m.fd && e.name != m.name,
    ensures
        unique_keys(s.push(m)),
        s.push(m).to_set() =~= s.to_set().insert(m),
{
    let r = s.push(m);
    assert forall|i: int, j: int|
        0 <= i < r.len() && 0 <= j < r.len() && i != j implies r[i].fd != r[j].fd && r[i].name
        != r[j].name by {
        if i == s.len() {
            assert(s.to_set().contains(s[j]));
        } else if j == s.len() {
            assert(s.to_set().contains(s[i]));
        }
    }
    assert forall|e: EntryModel<H>| #[trigger] r.to_set().contains(e) implies s.to_set().insert(m).contains(e) by {
        let k = choose|k: int| 0 <= k < r.len() && r[k] == e;
        if k < s.len() {
            assert(s[k] == e);
        }
    }
    assert forall|e: EntryModel<H>| #[trigger] s.to_set().insert(m).contains(e) implies r.to_set().contains(e) by {
        if e == m {
            assert(r[s.len() as int] == m);
        } else {
            let k = choose|k: int| 0 <= k < s.len() && s[k] == e;
            assert(r[k] == e);
        }
    }
}

/// The descriptor and sysname keys of a well-formed registry are in one-to-one
/// correspondence: two entries share a descriptor exactly when they share a
/// sysname, and then they are the same entry.
pub proof fn lemma_registry_bijection<H>(r: &Registry<H>)
    requires
        r.wf(),
    ensures
        forall|a: EntryModel<H>, b: EntryModel<H>|
            #[trigger] r.contents().contains(a) && #[trigger] r.contents().contains(b) ==> ((a.fd
                == b.fd) <==> (a.name == b.name)) && (a.fd == b.fd ==> a == b),
{
    let s = r.entries_view();
    assert forall|a: EntryModel<H>, b: EntryModel<H>|
        #[trigger] r.contents().contains(a) && #[trigger] r.contents().contains(b) implies ((a.fd
        == b.fd) <==> (a.name == b.name)) && (a.fd == b.fd ==> a == b) by {
        let i = choose|i: int| 0 <= i < s.len() && s[i] == a;
        let j = choose|j: int| 0 <= j < s.len() && s[j] == b;
        if i != j {
            assert(s[i].fd != s[j].fd && s[i].name != s[j].name);
        }
    }
}

/// A second add of a sysname that is registered already leaves the registry as a
/// single add of the second handle would: the first add's descriptor was fresh,
/// so the second add replaces exactly what the first put in.
pub proof fn lemma_add_twice<H>(
    before: Set<EntryModel<H>>,
    name: Seq<u8>,
    fd1: u64,
    h1: H,
    fd2: u64,
    h2: H,
)
    requires
        forall|e: EntryModel<H>| #[trigger] before.contains(e) && e.fd == fd1 ==> e.name == name,
    ensures
        spec_add(spec_add(before, name, fd1, h1), name, fd2, h2) == spec_add(before, name, fd2, h2),
{
    assert(spec_add(spec_add(before, name, fd1, h1), name, fd2, h2) =~= spec_add(
        before,
        name,
        fd2,
        h2,
    ));
}

/// The contents after adding `(fd, name, handle)`: every entry that shares the
/// descriptor or the sysname is replaced by the new one.
pub open spec fn spec_add<H>(before: Set<EntryModel<H>>, name: Seq<u8>, fd: u64, handle: H) -> Set<
    EntryModel<H>,
> {
    before.filter(|e: EntryModel<H>| e.fd != fd && e.name != name).insert(
        EntryModel { fd, name, handle },
    )
}

impl<H> Registry<H> {
    pub closed spec fn entries_view(&self) -> Seq<EntryModel<H>> {
        self.entries@.map_values(|e: Entry<H>| e.model())
    }

    /// The registered devices, as a set of entries.
    pub open spec fn contents(&self) -> Set<EntryModel<H>> {
        self.entries_view().to_set()
    }

    pub open spec fn wf(&self) -> bool {
        unique_keys(self.entries_view())
    }

    pub open spec fn has_name(&self, name: Seq<u8>) -> bool {
        exists|e: EntryModel<H>| #[trigger] self.contents().contains(e) && e.name == name
    }

    pub open spec fn has_fd(&self, fd: u64) -> bool {
        exists|e: EntryModel<H>| #[trigger] self.contents().contains(e) && e.fd == fd
    }

    pub fn new() -> (r: Registry<H>)
        ensures
            r.wf(),
            r.contents() == Set::<EntryModel<H>>::empty(),
    {
        let r = Registry { entries: Vec::new() };
        assert(r.contents() =~= Set::<EntryModel<H>>::empty());
        r
    }

    pub fn len(&self) -> (r: usize)
        ensures
            r == self.entries_view().len(),
    {
        self.entries.len()
    }


    fn take_at(&mut self, i: usize) -> (r: Entry<H>)
        requires
            i < old(self).entries_view().len(),
        ensures
            final(self).entries_view() == old(self).entries_view().remove(i as int),
            r.model() == old(self).entries_view()[i as int],
    {
        let r = self.entries.remove(i);
        assert(self.entries_view() =~= old(self).entries_view().remove(i as int));
        r
    }

    /// Registers an open device under its descriptor and sysname. Entries that
    /// share either key are taken out and handed back, so that their
    /// descriptors can be deregistered before they are closed.
    pub fn add(&mut self, name: Vec<u8>, fd: u64, handle: H) -> (evicted: Vec<Entry<H>>)
        requires
            old(self).wf(),
        ensures
            final(self).wf(),
            final(self).contents() == spec_add(old(self).contents(), name@, fd, handle),
            forall|i: int|
                0 <= i < evicted@.len() ==> old(self).contents().contains(
                    #[trigger] evicted@[i].model(),
                ) && (evicted@[i].fd == fd || evicted@[i].name@ == name@),
            forall|e: EntryModel<H>|
                #[trigger] old(self).contents().contains(e) && (e.fd == fd || e.name == name@)
                    ==> exists|i: int| 0 <= i < evicted@.len() && evicted@[i].model() == e,
    {
        let ghost s0 = self.contents();
        let ghost v0 = self.entries_view();
        let mut evicted: Vec<Entry<H>> = Vec::new();
        match self.find_name(name.as_slice()) {
            Some(i) => {
                proof {
                    lemma_remove_named(self.entries_view(), i as int);
                }
                let e = self.take_at(i);
                evicted.push(e);
                assert forall|x: EntryModel<H>| #[trigger] s0.contains(x) && x.name == name@ implies
                    exists|k: int| 0 <= k < evicted@.len() && evicted@[k].model() == x by {
                    let ki = choose|ki: int| 0 <= ki < v0.len() && v0[ki] == x;
                    assert(ki == i);
                    assert(evicted@[0].model() == x);
                }
            },
            None => {
                assert(self.contents() =~= s0.filter(|e: EntryModel<H>| e.name != name@));
                assert forall|x: EntryModel<H>| #[trigger] s0.contains(x) implies x.name != name@ by {
                    let ki = choose|ki: int| 0 <= ki < v0.len() && v0[ki] == x;
                }
            },
        }
        let ghost s1 = self.contents();
        let ghost v1 = self.entries_view();
        let ghost ev1 = evicted@;
        assert(s1 =~= s0.filter(|e: EntryModel<H>| e.name != name@));
        match self.find_fd(fd) {
            Some(j) => {
                proof {
                    lemma_remove_named(self.entries_view(), j as int);
                }
                let e = self.take_at(j);
                evicted.push(e);
                assert forall|x: EntryModel<H>| #[trigger] s1.contains(x) && x.fd == fd implies
                    exists|k: int| 0 <= k < evicted@.len() && evicted@[k].model() == x by {
                    let kj = choose|kj: int| 0 <= kj < v1.len() && v1[kj] == x;
                    assert(kj == j);
                    assert(evicted@[ev1.len() as int].model() == x);
                }
            },
            None => {
                assert(self.contents() =~= s1.filter(|e: EntryModel<H>| e.fd != fd));
                assert forall|x: EntryModel<H>| #[trigger] s1.contains(x) implies x.fd != fd by {
                    let kj = choose|kj: int| 0 <= kj < v1.len() && v1[kj] == x;
                }
            },
        }
        let ghost s2 = self.contents();
        assert(s2 =~= s0.filter(|e: EntryModel<H>| e.fd != fd && e.name != name@));
        assert forall|x: EntryModel<H>| #[trigger] s0.contains(x) && (x.fd == fd || x.name == name@)
            implies exists|k: int| 0 <= k < evicted@.len() && evicted@[k].model() == x by {
            if x.name == name@ {
                let k = choose|k: int| 0 <= k < ev1.len() && ev1[k].model() == x;
                assert(evicted@[k] == ev1[k]);
            } else {
                assert(s1.contains(x));
            }
        }
        let ghost m = EntryModel { fd, name: name@, handle };
        let ghost v = self.entries_view();
        proof {
            lemma_push_new(v, m);
        }
        self.entries.push(Entry { fd, name, handle });
        assert(self.entries_view() =~= v.push(m));
        evicted
    }


    /// Takes out the device registered under `name`, if any, and hands it back
    /// so that its descriptor can be deregistered before it is closed.
    pub fn remove(&mut self, name: &[u8]) -> (r: Option<Entry<H>>)
        requires
            old(self).wf(),
        ensures
            final(self).wf(),
            final(self).contents() == old(self).contents().filter(
                |e: EntryModel<H>| e.name != name@,
            ),
            r is Some <==> old(self).has_name(name@),
            r is Some ==> old(self).contents().contains(r->0.model()) && r->0.name@ == name@,
    {
        let ghost v0 = self.entries_view();
        match self.find_name(name) {
            Some(i) => {
                proof {
                    lemma_remove_named(v0, i as int);
                    assert(old(self).contents().contains(v0[i as int]));
                }
                let e = self.take_at(i);
                Some(e)
            },
            None => {
                assert(self.contents() =~= self.contents().filter(
                    |e: EntryModel<H>| e.name != name@,
                ));
                assert forall|x: EntryModel<H>| #[trigger] self.contents().contains(x) implies x.name
                    != name@ by {
                    let ki = choose|ki: int| 0 <= ki < v0.len() && v0[ki] == x;
                }
                None
            },
        }
    }

    /// The handle registered under descriptor `fd`.
    pub fn get(&self, fd: u64) -> (r: Option<&H>)
        requires
            self.wf(),
        ensures
            r is Some <==> self.has_fd(fd),
            r is Some ==> exists|e: EntryModel<H>|
                #[trigger] self.contents().contains(e) && e.fd == fd && e.handle == *r->0,
    {
        let ghost v = self.entries_view();
        match self.find_fd(fd) {
            Some(i) => {
                assert(v[i as int] == self.entries@[i as int].model());
                assert(self.contents().contains(v[i as int]));
                Some(&self.entries[i].handle)
            },
            None => {
                assert forall|x: EntryModel<H>| #[trigger] self.contents().contains(x) implies x.fd
                    != fd by {
                    let ki = choose|ki: int| 0 <= ki < v.len() && v[ki] == x;
                }
                None
            },
        }
    }

    /// The descriptor registered under sysname `name`.
    pub fn fd_of(&self, name: &[u8]) -> (r: Option<u64>)
        requires
            self.wf(),
        ensures
            r is Some <==> self.has_name(name@),
            r is Some ==> exists|e: EntryModel<H>|
                #[trigger] self.contents().contains(e) && e.name == name@ && e.fd == r->0,
    {
        let ghost v = self.entries_view();
        match self.find_name(name) {
            Some(i) => {
                assert(v[i as int] == self.entries@[i as int].model());
                assert(self.contents().contains(v[i as int]));
                Some(self.entries[i].fd)
            },
            None => {
                assert forall|x: EntryModel<H>| #[trigger] self.contents().contains(x) implies x.name
                    != name@ by {
                    let ki = choose|ki: int| 0 <= ki < v.len() && v[ki] == x;
                }
                None
            },
        }
    }

    /// The descriptors of all registered devices, each once.
    pub fn fds(&self) -> (r: Vec<u64>)
        requires
            self.wf(),
        ensures
            r@.no_duplicates(),
            forall|fd: u64| r@.contains(fd) <==> self.has_fd(fd),
    {
        let ghost v = self.entries_view();
        let mut r: Vec<u64> = Vec::new();
        let mut i: usize = 0;
        while i < self.entries.len()
            invariant
                i <= v.len(),
                v == self.entries_view(),
                unique_keys(v),
                r@.len() == i,
                forall|k: int| 0 <= k < i ==> r@[k] == v[k].fd,
            decreases v.len() - i,
        {
            r.push(self.entries[i].fd);
            i = i + 1;
        }
        assert forall|fd: u64| r@.contains(fd) <==> self.has_fd(fd) by {
            if r@.contains(fd) {
                let k = choose|k: int| 0 <= k < r@.len() && r@[k] == fd;
                assert(self.contents().contains(v[k]));
            }
            if self.has_fd(fd) {
                let e = choose|e: EntryModel<H>| #[trigger] self.contents().contains(e) && e.fd == fd;
                let k = choose|k: int| 0 <= k < v.len() && v[k] == e;
                assert(r@[k] == fd);
            }
        }
        r
    }

    fn find_name(&self, name: &[u8]) -> (r: Option<usize>)
        ensures
            match r {
                Some(i) => i < self.entries_view().len() && self.entries_view()[i as int].name
                    == name@,
                None => forall|i: int|
                    0 <= i < self.entries_view().len() ==> self.entries_view()[i].name != name@,
            },
    {
        let mut i: usize = 0;
        while i < self.entries.len()
            invariant
                i <= self.entries_view().len(),
                forall|k: int| 0 <= k < i ==> self.entries_view()[k].name != name@,
            decreases self.entries_view().len() - i,
        {
            if bytes_eq(self.entries[i].name.as_slice(), name) {
                return Some(i);
            }
            i = i + 1;
        }
        None
    }

    fn find_fd(&self, fd: u64) -> (r: Option<usize>)
        ensures
            match r {
                Some(i) => i < self.entries_view().len() && self.entries_view()[i as int].fd == fd,
                None => forall|i: int|
                    0 <= i < self.entries_view().len() ==> self.entries_view()[i].fd != fd,
            },
    {
        let mut i: usize = 0;
        while i < self.entries.len()
            invariant
                i <= self.entries_view().len(),
                forall|k: int| 0 <= k < i ==> self.entries_view()[k].fd != fd,
            decreases self.entries_view().len() - i,
        {
            if self.entries[i].fd == fd {
                return Some(i);
            }
            i = i + 1;
        }
        None
    }
}

} // verus!
