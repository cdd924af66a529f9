//! The host's decisions: which bytes go to which connected guest when a device
//! appears or disappears, when a guest says hello, and when a device reports an
//! event. Performing the writes, and reporting a failed one back through
//! `hang_up`, is left to the caller.
use vstd::prelude::*;
use crate::client::{Client, ReadError, ReadReply};
use crate::frames::{
    add_device_frame, axis_count, input_event_frame, remove_device_frame, spec_add_device_frame,
    spec_input_event_frame, spec_remove_device_frame,
};
use crate::registry::{Entry, EntryModel, Registry, lemma_registry_bijection, spec_add};
use crate::bits::set_bits;
use crate::wire::{
    AbsoluteInfo, AddDevice, InputEvent, ServerHello, ABS_BYTES, ABS_COUNT, EV_BYTES, HELLO_SIZE,
    KEY_BYTES, LED_BYTES, MSC_BYTES, NAME_BYTES, PROP_BYTES, PROTOCOL_VERSION, REL_BYTES, SND_BYTES,
    SW_BYTES,
};

verus! {

/// A message handed to a client's socket, as far as the laws below care.
pub ghost enum Sent {
    Hello,
    Add(u64),
    Remove(u64),
    Event(u64),
}

/// One accepted connection, keyed by its descriptor.
pub struct Conn<S> {
    pub fd: u64,
    pub client: Client<S>,
}

/// What a device currently reports about itself, for an `AddDevice` frame.
pub struct Descriptor {
    pub dev: AddDevice,
    pub infos: Vec<AbsoluteInfo>,
}

/// What came of bytes read from a client that has not said hello yet.
pub enum HelloProgress<S> {
    /// No such client, or it has said hello already: nothing to do.
    Ignored,
    /// The hello is not complete yet.
    Pending,
    /// The client hung up or misused the read; it is gone and here is its socket.
    Dropped(S),
    /// The hello is complete: answer it with `greet`.
    Complete,
}

/// Why a hello answer was not produced.
#[derive(Clone, Copy, Debug, PartialEq, Eq, Structural)]
pub enum GreetError {
    /// No client is connected on that descriptor.
    UnknownClient,
    /// The client has been answered already.
    AlreadyReady,
    /// The descriptors given are not those of the registered devices, in
    /// registry order, each well-formed.
    Mismatch,
}

/// The `AddDevice` frames of `ds`, one after the other.
pub open spec fn frames_of(ds: Seq<Descriptor>) -> Seq<u8>
    decreases ds.len(),
{
    if ds.len() == 0 {
        seq![]
    } else {
        frames_of(ds.drop_last()) + spec_add_device_frame(ds.last().dev@, ds.last().infos@)
    }
}

/// The ids of the devices that `ds` describe.
pub open spec fn ids_of(ds: Seq<Descriptor>) -> Seq<u64> {
    ds.map_values(|d: Descriptor| d.dev.id)
}

pub open spec fn adds_of(ids: Seq<u64>) -> Seq<Sent> {
    ids.map_values(|x: u64| Sent::Add(x))
}

pub open spec fn descriptor_ok(d: Descriptor) -> bool {
    d.dev.wf() && d.infos@.len() == axis_count(d.dev@)
}

/// Whether `d` is a well-formed descriptor whose axis records match its mask.
pub fn check_descriptor(d: &Descriptor) -> (r: bool)
    ensures
        r == descriptor_ok(*d),
{
    let ok = d.dev.evbits.len() == EV_BYTES && d.dev.keybits.len() == KEY_BYTES
        && d.dev.relbits.len() == REL_BYTES && d.dev.absbits.len() == ABS_BYTES
        && d.dev.mscbits.len() == MSC_BYTES && d.dev.ledbits.len() == LED_BYTES
        && d.dev.sndbits.len() == SND_BYTES && d.dev.swbits.len() == SW_BYTES
        && d.dev.propbits.len() == PROP_BYTES && d.dev.name.len() == NAME_BYTES;
    if !ok {
        return false;
    }
    let axes = set_bits(d.dev.absbits.as_slice(), ABS_COUNT);
    axes.len() == d.infos.len()
}

/// The hello `l[h]` is the only one in `l`, and right after it come the
/// `AddDevice` messages of the devices `cu`, each once.
pub open spec fn greeted(l: Seq<Sent>, h: int, cu: Seq<u64>) -> bool {
    &&& 0 <= h
    &&& h + 1 + cu.len() <= l.len()
    &&& l[h] == Sent::Hello
    &&& forall|i: int| 0 <= i < l.len() && i != h ==> l[i] != Sent::Hello
    &&& cu.no_duplicates()
    &&& forall|k: int| 0 <= k < cu.len() ==> l[h + 1 + k] == Sent::Add(cu[k])
}

pub open spec fn no_hello(l: Seq<Sent>) -> bool {
    forall|i: int| 0 <= i < l.len() ==> l[i] != Sent::Hello
}

/// The client has been told of device `d` and not told since that it is gone.
pub open spec fn live(l: Seq<Sent>, d: u64) -> bool {
    exists|i: int|
        0 <= i < l.len() && l[i] == Sent::Add(d) && forall|j: int|
            i < j < l.len() ==> l[j] != Sent::Remove(d)
}

proof fn lemma_push_keeps(l: Seq<Sent>, m: Sent, h: int, cu: Seq<u64>)
    requires
        m != Sent::Hello,
    ensures
        greeted(l, h, cu) ==> greeted(l.push(m), h, cu),
        no_hello(l) ==> no_hello(l.push(m)),
        forall|d: u64| live(l, d) && m != Sent::Remove(d) ==> #[trigger] live(l.push(m), d),
{
    let l2 = l.push(m);
    if greeted(l, h, cu) {
        assert forall|k: int| 0 <= k < cu.len() implies l2[h + 1 + k] == Sent::Add(cu[k]) by {
            assert(l2[h + 1 + k] == l[h + 1 + k]);
        }
    }
    assert forall|d: u64| live(l, d) && m != Sent::Remove(d) implies #[trigger] live(l2, d) by {
        let i = choose|i: int|
            0 <= i < l.len() && l[i] == Sent::Add(d) && forall|j: int|
                i < j < l.len() ==> l[j] != Sent::Remove(d);
        assert(l2[i] == Sent::Add(d));
        assert forall|j: int| i < j < l2.len() implies l2[j] != Sent::Remove(d) by {
            if j < l.len() {
                assert(l2[j] == l[j]);
            }
        }
    }
}

/// The descriptors of the ready clients among the first `n`, in order.
pub open spec fn ready_fds_below<S, H>(s: &Server<S, H>, n: nat) -> Seq<u64>
    decreases n,
{
    if n == 0 {
        seq![]
    } else if s.client_at(n - 1).is_ready_spec() {
        ready_fds_below(s, (n - 1) as nat).push(s.client_fds()[n - 1])
    } else {
        ready_fds_below(s, (n - 1) as nat)
    }
}

pub open spec fn ready_fds<S, H>(s: &Server<S, H>) -> Seq<u64> {
    ready_fds_below(s, s.client_count() as nat)
}

pub struct Server<S, H> {
    devices: Registry<H>,
    conns: Vec<Conn<S>>,
    sent: Ghost<Seq<Seq<Sent>>>,
    hello_at: Ghost<Seq<int>>,
    catchup: Ghost<Seq<Seq<u64>>>,
}

impl<S, H> Server<S, H> {
    pub closed spec fn device_table(&self) -> Registry<H> {
        self.devices
    }

    /// The descriptors of the connected clients, in order of connection.
    pub closed spec fn client_fds(&self) -> Seq<u64> {
        self.conns@.map_values(|c: Conn<S>| c.fd)
    }

    pub closed spec fn client_at(&self, i: int) -> Client<S> {
        self.conns@[i].client
    }

    /// Everything handed to the socket of the `i`-th client since it connected.
    pub closed spec fn sent_to(&self, i: int) -> Seq<Sent> {
        self.sent@[i]
    }

    /// Where the `i`-th client's hello answer stands in what it was sent.
    pub closed spec fn hello_index(&self, i: int) -> int {
        self.hello_at@[i]
    }

    /// The devices announced to the `i`-th client right after its hello answer.
    pub closed spec fn catchup_of(&self, i: int) -> Seq<u64> {
        self.catchup@[i]
    }

    pub open spec fn client_count(&self) -> int {
        self.client_fds().len() as int
    }

    pub open spec fn index_of(&self, fd: u64) -> int {
        choose|i: int| 0 <= i < self.client_count() && self.client_fds()[i] == fd
    }

    pub open spec fn is_client(&self, fd: u64) -> bool {
        exists|i: int| 0 <= i < self.client_count() && self.client_fds()[i] == fd
    }

    pub closed spec fn shapes(&self) -> bool {
        &&& self.sent@.len() == self.conns@.len()
        &&& self.hello_at@.len() == self.conns@.len()
        &&& self.catchup@.len() == self.conns@.len()
    }

    /// The state every method keeps: a well-formed device table, distinct
    /// client descriptors, well-formed read buffers; a ready client was sent
    /// one hello answer followed by its catch-up, and is live on every
    /// registered device; a client that is not ready was sent no hello answer.
    pub open spec fn inv(&self) -> bool {
        &&& self.shapes()
        &&& self.device_table().wf()
        &&& self.client_fds().no_duplicates()
        &&& forall|i: int| 0 <= i < self.client_count() ==> #[trigger] self.client_at(i).wf()
        &&& forall|i: int|
            0 <= i < self.client_count() ==> (if #[trigger] self.client_at(i).is_ready_spec() {
                greeted(self.sent_to(i), self.hello_index(i), self.catchup_of(i))
            } else {
                no_hello(self.sent_to(i))
            })
        &&& forall|i: int, d: u64|
            0 <= i < self.client_count() && #[trigger] self.client_at(i).is_ready_spec()
                && #[trigger] self.device_table().has_fd(d) ==> live(self.sent_to(i), d)
    }
}

impl<S, H> Server<S, H> {
    /// `inv`, except that a ready client need not yet be live on device `x`.
    pub open spec fn inv_except(&self, x: u64) -> bool {
        &&& self.shapes()
        &&& self.device_table().wf()
        &&& self.client_fds().no_duplicates()
        &&& forall|i: int| 0 <= i < self.client_count() ==> #[trigger] self.client_at(i).wf()
        &&& forall|i: int|
            0 <= i < self.client_count() ==> (if #[trigger] self.client_at(i).is_ready_spec() {
                greeted(self.sent_to(i), self.hello_index(i), self.catchup_of(i))
            } else {
                no_hello(self.sent_to(i))
            })
        &&& forall|i: int, d: u64|
            0 <= i < self.client_count() && #[trigger] self.client_at(i).is_ready_spec()
                && #[trigger] self.device_table().has_fd(d) && d != x ==> live(self.sent_to(i), d)
    }

    /// The client-side part of `inv`, carried over a change of the device table.
    proof fn lemma_clients_unchanged(&self, prev: &Self)
        requires
            prev.inv(),
            self.shapes(),
            self.device_table().wf(),
            self.conns@ == prev.conns@,
            self.sent@ == prev.sent@,
            self.hello_at@ == prev.hello_at@,
            self.catchup@ == prev.catchup@,
        ensures
            self.client_fds() == prev.client_fds(),
            self.client_fds().no_duplicates(),
            forall|i: int| 0 <= i < self.client_count() ==> #[trigger] self.client_at(i).wf(),
            forall|i: int|
                0 <= i < self.client_count() ==> (if #[trigger] self.client_at(i).is_ready_spec() {
                    greeted(self.sent_to(i), self.hello_index(i), self.catchup_of(i))
                } else {
                    no_hello(self.sent_to(i))
                }),
            forall|i: int, d: u64|
                0 <= i < self.client_count() && #[trigger] self.client_at(i).is_ready_spec()
                    && #[trigger] prev.device_table().has_fd(d) ==> live(self.sent_to(i), d),
    {
        assert(self.client_fds() =~= prev.client_fds());
        assert forall|i: int| 0 <= i < self.client_count() implies #[trigger] self.client_at(i).wf() by {
            assert(prev.client_at(i).wf());
        }
        assert forall|i: int|
            0 <= i < self.client_count() implies (if #[trigger] self.client_at(i).is_ready_spec() {
                greeted(self.sent_to(i), self.hello_index(i), self.catchup_of(i))
            } else {
                no_hello(self.sent_to(i))
            }) by {
            assert(prev.client_at(i).is_ready_spec() == self.client_at(i).is_ready_spec());
        }
        assert forall|i: int, d: u64|
            0 <= i < self.client_count() && #[trigger] self.client_at(i).is_ready_spec()
                && #[trigger] prev.device_table().has_fd(d) implies live(self.sent_to(i), d) by {
            assert(prev.client_at(i).is_ready_spec());
            assert(prev.device_table().has_fd(d));
        }
    }

    /// Notes that `m` was handed to every client, or to every ready one.
    fn record(&mut self, m: Ghost<Sent>, x: Ghost<u64>, ready_only: bool)
        requires
            old(self).inv_except(x@),
            m@ != Sent::Hello,
            m@ == Sent::Add(x@) || !old(self).device_table().has_fd(x@) || old(self).inv(),
            forall|r: u64| m@ == Sent::Remove(r) ==> !old(self).device_table().has_fd(r),
        ensures
            final(self).inv(),
            final(self).client_fds() == old(self).client_fds(),
            final(self).device_table() == old(self).device_table(),
            forall|i: int| 0 <= i < final(self).client_count() ==> #[trigger] final(self).client_at(i) == old(self).client_at(i),
            forall|i: int| 0 <= i < final(self).client_count() ==> #[trigger] final(self).sent_to(i) == if ready_only && !old(self).client_at(i).is_ready_spec() {
                old(self).sent_to(i)
            } else {
                old(self).sent_to(i).push(m@)
            },
    {
        let ghost old_sent = self.sent@;
        let ghost conns = self.conns@;
        let ghost new_sent = Seq::new(old_sent.len(), |i: int| if ready_only && !conns[i].client.is_ready_spec() {
                old_sent[i]
            } else {
                old_sent[i].push(m@)
            });
        let ghost hello = self.hello_at@;
        let ghost cu = self.catchup@;
        let ghost ready = |i: int| conns[i].client.is_ready_spec();
        self.sent = Ghost(new_sent);
        assert forall|i: int|
            0 <= i < self.client_count() implies (if #[trigger] self.client_at(i).is_ready_spec() {
                greeted(self.sent_to(i), self.hello_index(i), self.catchup_of(i))
            } else {
                no_hello(self.sent_to(i))
            }) by {
            lemma_push_keeps(old_sent[i], m@, hello[i], cu[i]);
            assert(old(self).client_at(i).is_ready_spec() ==> greeted(old_sent[i], hello[i], cu[i]));
        }
        assert forall|i: int, d: u64|
            0 <= i < self.client_count() && #[trigger] self.client_at(i).is_ready_spec()
                && #[trigger] self.device_table().has_fd(d) implies live(self.sent_to(i), d) by {
            lemma_push_keeps(old_sent[i], m@, hello[i], cu[i]);
            assert(old(self).client_at(i).is_ready_spec());
            if d == x@ && m@ == Sent::Add(d) {
                assert(new_sent[i][old_sent[i].len() as int] == Sent::Add(d));
            } else {
                assert(old(self).device_table().has_fd(d));
                assert(live(old_sent[i], d));
            }
        }
        assert(self.shapes());
        assert(self.client_fds() == old(self).client_fds());
        assert forall|i: int| 0 <= i < self.client_count() implies #[trigger] self.client_at(i).wf() by {
            assert(old(self).client_at(i).wf());
        }
    }

    pub fn new() -> (r: Server<S, H>)
        ensures
            r.inv(),
            r.client_count() == 0,
            r.device_table().contents() == Set::<crate::registry::EntryModel<H>>::empty(),
    {
        let r = Server {
            devices: Registry::new(),
            conns: Vec::new(),
            sent: Ghost(Seq::empty()),
            hello_at: Ghost(Seq::empty()),
            catchup: Ghost(Seq::empty()),
        };
        assert(r.client_fds() =~= Seq::<u64>::empty());
        r
    }

    pub fn devices(&self) -> (r: &Registry<H>)
        ensures
            *r == self.device_table(),
    {
        &self.devices
    }

    fn find_client(&self, fd: u64) -> (r: Option<usize>)
        ensures
            match r {
                Some(i) => i < self.client_count() && self.client_fds()[i as int] == fd,
                None => !self.is_client(fd),
            },
    {
        let mut i: usize = 0;
        while i < self.conns.len()
            invariant
                i <= self.conns@.len(),
                forall|k: int| 0 <= k < i ==> self.client_fds()[k] != fd,
            decreases self.conns@.len() - i,
        {
            if self.conns[i].fd == fd {
                return Some(i);
            }
            i = i + 1;
        }
        None
    }

    fn remove_conn(&mut self, i: usize) -> (r: Conn<S>)
        requires
            old(self).inv(),
            i < old(self).client_count(),
        ensures
            final(self).inv(),
            final(self).client_fds() == old(self).client_fds().remove(i as int),
            final(self).device_table() == old(self).device_table(),
            r.fd == old(self).client_fds()[i as int],
            r.client == old(self).client_at(i as int),
            forall|k: int|
                0 <= k < final(self).client_count() ==> {
                    let o = if k < i { k } else { k + 1 };
                    &&& #[trigger] final(self).client_at(k) == old(self).client_at(o)
                    &&& final(self).sent_to(k) == old(self).sent_to(o)
                },
    {
        let r = self.conns.remove(i);
        self.sent = Ghost(self.sent@.remove(i as int));
        self.hello_at = Ghost(self.hello_at@.remove(i as int));
        self.catchup = Ghost(self.catchup@.remove(i as int));
        assert(self.client_fds() =~= old(self).client_fds().remove(i as int));
        assert forall|k: int| 0 <= k < self.client_count() implies {
            let o = if k < i { k } else { k + 1 };
            &&& #[trigger] self.client_at(k) == old(self).client_at(o)
            &&& self.sent_to(k) == old(self).sent_to(o)
            &&& self.hello_index(k) == old(self).hello_index(o)
            &&& self.catchup_of(k) == old(self).catchup_of(o)
        } by {}
        assert forall|a: int, b: int|
            0 <= a < self.client_count() && 0 <= b < self.client_count() && a != b implies self.client_fds()[a]
            != self.client_fds()[b] by {
            let oa = if a < i { a } else { a + 1 };
            let ob = if b < i { b } else { b + 1 };
            assert(self.client_fds()[a] == old(self).client_fds()[oa]);
            assert(self.client_fds()[b] == old(self).client_fds()[ob]);
        }
        assert forall|k: int, d: u64|
            0 <= k < self.client_count() && #[trigger] self.client_at(k).is_ready_spec()
                && #[trigger] self.device_table().has_fd(d) implies live(self.sent_to(k), d) by {
            let o = if k < i { k } else { k + 1 };
            assert(old(self).client_at(o).is_ready_spec());
        }
        r
    }

    /// Forgets the client on descriptor `fd` after an error or a hangup, and
    /// hands back its socket so that it can be deregistered and closed.
    pub fn hang_up(&mut self, fd: u64) -> (r: Option<S>)
        requires
            old(self).inv(),
        ensures
            final(self).inv(),
            r is Some <==> old(self).is_client(fd),
            r matches Some(sock) ==> sock == old(self).client_at(old(self).index_of(fd)).socket_of(),
            !final(self).is_client(fd),
            final(self).device_table() == old(self).device_table(),
            forall|g: u64| g != fd ==> (final(self).is_client(g) <==> old(self).is_client(g)),
    {
        match self.find_client(fd) {
            Some(i) => {
                let ghost old_fds = self.client_fds();
                assert(old(self).index_of(fd) == i as int);
                let c = self.remove_conn(i);
                proof {
                    assert forall|g: u64| g != fd implies (self.is_client(g) <==> old(self).is_client(g)) by {
                        if old(self).is_client(g) {
                            let k = choose|k: int| 0 <= k < old_fds.len() && old_fds[k] == g;
                            if k < i {
                                assert(self.client_fds()[k] == g);
                            } else {
                                assert(self.client_fds()[k - 1] == g);
                            }
                        }
                        if self.is_client(g) {
                            let k = choose|k: int| 0 <= k < self.client_count() && self.client_fds()[k] == g;
                            if k < i {
                                assert(old_fds[k] == g);
                            } else {
                                assert(old_fds[k + 1] == g);
                            }
                        }
                    }
                    if self.is_client(fd) {
                        let k = choose|k: int| 0 <= k < self.client_count() && self.client_fds()[k] == fd;
                        if k < i {
                            assert(old_fds[k] == fd);
                        } else {
                            assert(old_fds[k + 1] == fd);
                        }
                    }
                }
                Some(c.client.into_socket())
            },
            None => None,
        }
    }

    /// Adds the client accepted on descriptor `fd`; it has not said hello yet.
    /// A client still recorded under the same descriptor is dropped first and
    /// its socket handed back.
    pub fn connect(&mut self, fd: u64, socket: S) -> (r: Option<S>)
        requires
            old(self).inv(),
        ensures
            final(self).inv(),
            r is Some <==> old(self).is_client(fd),
            r matches Some(sock) ==> sock == old(self).client_at(old(self).index_of(fd)).socket_of(),
            final(self).is_client(fd),
            final(self).client_fds().last() == fd,
            !final(self).client_at(final(self).client_count() - 1).is_ready_spec(),
            final(self).sent_to(final(self).client_count() - 1) == Seq::<Sent>::empty(),
            final(self).device_table() == old(self).device_table(),
    {
        let old_socket = self.hang_up(fd);
        let ghost mid = self.client_fds();
        let ghost n = mid.len() as int;
        let ghost conns0 = self.conns@;
        let ghost sent0 = self.sent@;
        let ghost hello0 = self.hello_at@;
        let ghost catch0 = self.catchup@;
        assert forall|k: int| 0 <= k < n implies #[trigger] conns0[k].client.wf() && (if conns0[k].client.is_ready_spec() {
            greeted(sent0[k], hello0[k], catch0[k])
        } else {
            no_hello(sent0[k])
        }) && (forall|d: u64| conns0[k].client.is_ready_spec() && #[trigger] self.device_table().has_fd(d) ==> live(sent0[k], d)) by {
            assert(self.client_at(k).wf());
            if self.client_at(k).is_ready_spec() {
                assert forall|d: u64| #[trigger] self.device_table().has_fd(d) implies live(sent0[k], d) by {
                    assert(self.client_at(k).is_ready_spec());
                }
            }
        }
        self.conns.push(Conn { fd, client: Client::new(socket) });
        self.sent = Ghost(self.sent@.push(Seq::empty()));
        self.hello_at = Ghost(self.hello_at@.push(0));
        self.catchup = Ghost(self.catchup@.push(Seq::empty()));
        assert(self.client_fds() =~= mid.push(fd));
        assert forall|a: int, b: int|
            0 <= a < self.client_count() && 0 <= b < self.client_count() && a != b implies self.client_fds()[a]
            != self.client_fds()[b] by {
            if a == n {
                assert(mid[b] != fd);
            } else if b == n {
                assert(mid[a] != fd);
            }
        }
        assert forall|k: int| 0 <= k < self.client_count() implies self.client_at(k).wf() && (if #[trigger] self.client_at(k).is_ready_spec() {
            greeted(self.sent_to(k), self.hello_index(k), self.catchup_of(k))
        } else {
            no_hello(self.sent_to(k))
        }) by {
            if k < n {
                assert(self.conns@[k] == conns0[k]);
                assert(self.sent_to(k) == sent0[k]);
                assert(self.hello_index(k) == hello0[k]);
                assert(self.catchup_of(k) == catch0[k]);
                assert(conns0[k].client.wf());
            } else {
                assert(!self.client_at(k).is_ready_spec());
                assert(no_hello(self.sent_to(k)));
            }
        }
        assert forall|k: int, d: u64|
            0 <= k < self.client_count() && #[trigger] self.client_at(k).is_ready_spec()
                && #[trigger] self.device_table().has_fd(d) implies live(self.sent_to(k), d) by {
            assert(self.conns@[k] == conns0[k]);
            assert(self.sent_to(k) == sent0[k]);
            assert(conns0[k].client.wf());
        }
        assert(self.client_fds().no_duplicates());
        assert(self.shapes());
        assert(self.device_table().wf());
        assert forall|i: int| 0 <= i < self.client_count() implies #[trigger] self.client_at(i).wf() by {
            assert(self.client_at(i).is_ready_spec() || !self.client_at(i).is_ready_spec());
        }
        assert(self.is_client(fd)) by {
            assert(self.client_fds()[self.client_count() - 1] == fd);
        }
        old_socket
    }

    /// Handles an event read from registered device `ev.id`: the frame goes to
    /// every ready client, and to no other.
    pub fn input_event(&mut self, ev: &InputEvent) -> (r: (Vec<u8>, Vec<u64>))
        requires
            old(self).inv(),
        ensures
            final(self).inv(),
            r.0@ == spec_input_event_frame(*ev),
            r.1@ == ready_fds(old(self)),
            final(self).client_fds() == old(self).client_fds(),
            final(self).device_table() == old(self).device_table(),
            forall|i: int|
                0 <= i < final(self).client_count() ==> #[trigger] final(self).sent_to(i) == if old(
                    self,
                ).client_at(i).is_ready_spec() {
                    old(self).sent_to(i).push(Sent::Event(ev.id))
                } else {
                    old(self).sent_to(i)
                },
    {
        let frame = input_event_frame(ev);
        let targets = self.ready_clients();
        self.record(Ghost(Sent::Event(ev.id)), Ghost(ev.id), true);
        (frame, targets)
    }

    /// Handles the disappearance of the device with sysname `name`. If it was
    /// registered, it is taken out and handed back for closing, together with
    /// the `RemoveDevice` frame and the clients it goes to: all of them.
    pub fn remove_device(&mut self, name: &[u8]) -> (r: Option<(Entry<H>, Vec<u8>, Vec<u64>)>)
        requires
            old(self).inv(),
        ensures
            final(self).inv(),
            r is Some <==> old(self).device_table().has_name(name@),
            final(self).device_table().contents() == old(self).device_table().contents().filter(
                |e: EntryModel<H>| e.name != name@,
            ),
            final(self).client_fds() == old(self).client_fds(),
            r matches Some((e, frame, targets)) ==> {
                &&& old(self).device_table().contents().contains(e.model())
                &&& e.name@ == name@
                &&& !final(self).device_table().has_fd(e.fd)
                &&& frame@ == spec_remove_device_frame(e.fd)
                &&& targets@ == old(self).client_fds()
                &&& forall|i: int|
                    0 <= i < final(self).client_count() ==> #[trigger] final(self).sent_to(i)
                        == old(self).sent_to(i).push(Sent::Remove(e.fd))
            },
            r is None ==> final(self).device_table().contents() == old(self).device_table().contents(),
    {
        proof {
            lemma_registry_bijection(&self.devices);
        }
        let ghost before = self.devices.contents();
        match self.devices.remove(name) {
            Some(e) => {
                assert(!self.devices.has_fd(e.fd)) by {
                    if self.devices.has_fd(e.fd) {
                        let x = choose|x: EntryModel<H>| #[trigger] self.devices.contents().contains(x) && x.fd == e.fd;
                        assert(before.contains(x) && before.contains(e.model()));
                    }
                }
                proof {
                    self.lemma_clients_unchanged(old(self));
                }
                assert forall|i: int, d: u64|
                    0 <= i < self.client_count() && #[trigger] self.client_at(i).is_ready_spec()
                        && #[trigger] self.device_table().has_fd(d) && d != e.fd implies live(self.sent_to(i), d) by {
                    let x = choose|x: EntryModel<H>| #[trigger] self.devices.contents().contains(x) && x.fd == d;
                    assert(before.contains(x));
                    assert(old(self).device_table().has_fd(d));
                }
                let frame = remove_device_frame(e.fd);
                let targets = self.clients();
                self.record(Ghost(Sent::Remove(e.fd)), Ghost(e.fd), false);
                Some((e, frame, targets))
            },
            None => {
                assert(self.devices.contents() =~= before);
                proof {
                    self.lemma_clients_unchanged(old(self));
                }
                assert forall|i: int, d: u64|
                    0 <= i < self.client_count() && #[trigger] self.client_at(i).is_ready_spec()
                        && #[trigger] self.device_table().has_fd(d) implies live(self.sent_to(i), d) by {
                    let x = choose|x: EntryModel<H>| #[trigger] self.devices.contents().contains(x) && x.fd == d;
                    assert(before.contains(x));
                    assert(old(self).device_table().has_fd(d));
                }
                None
            },
        }
    }

    /// Registers joystick `fd` under sysname `name`, described by `desc`, and
    /// gives the `AddDevice` frame with the clients it goes to: all of them.
    /// Entries replaced by the new one are handed back for closing. A
    /// descriptor that is not well-formed or names another id is refused and
    /// the handle given back.
    pub fn add_device(&mut self, name: Vec<u8>, fd: u64, handle: H, desc: &Descriptor) -> (r:
        Result<(Vec<Entry<H>>, Vec<u8>, Vec<u64>), H>)
        requires
            old(self).inv(),
        ensures
            final(self).inv(),
            r is Ok <==> descriptor_ok(*desc) && desc.dev.id == fd,
            r is Err ==> r->Err_0 == handle && final(self).device_table() == old(self).device_table()
                && final(self).client_fds() == old(self).client_fds(),
            r matches Ok((evicted, frame, targets)) ==> {
                &&& final(self).device_table().contents() == spec_add(
                    old(self).device_table().contents(),
                    name@,
                    fd,
                    handle,
                )
                &&& frame@ == spec_add_device_frame(desc.dev@, desc.infos@)
                &&& targets@ == old(self).client_fds()
                &&& final(self).client_fds() == old(self).client_fds()
                &&& forall|i: int|
                    0 <= i < final(self).client_count() ==> #[trigger] final(self).sent_to(i)
                        == old(self).sent_to(i).push(Sent::Add(fd))
                &&& forall|i: int|
                    0 <= i < evicted@.len() ==> old(self).device_table().contents().contains(
                        #[trigger] evicted@[i].model(),
                    )
            },
    {
        if !check_descriptor(desc) || desc.dev.id != fd {
            return Err(handle);
        }
        let ghost before = self.devices.contents();
        let evicted = self.devices.add(name, fd, handle);
        proof {
            self.lemma_clients_unchanged(old(self));
        }
        assert forall|i: int, d: u64|
            0 <= i < self.client_count() && #[trigger] self.client_at(i).is_ready_spec()
                && #[trigger] self.device_table().has_fd(d) && d != fd implies live(self.sent_to(i), d) by {
            let x = choose|x: EntryModel<H>| #[trigger] self.devices.contents().contains(x) && x.fd == d;
            assert(before.contains(x));
            assert(old(self).device_table().has_fd(d));
        }
        let frame = add_device_frame(&desc.dev, &desc.infos);
        let targets = self.clients();
        self.record(Ghost(Sent::Add(fd)), Ghost(fd), false);
        Ok((evicted, frame, targets))
    }

    /// Registers joystick `fd` whose description could not be read: no client
    /// can be told of it, so every client is dropped and its socket handed
    /// back, together with the entries replaced by the new one.
    pub fn add_device_unreadable(&mut self, name: Vec<u8>, fd: u64, handle: H) -> (r: (
        Vec<Entry<H>>,
        Vec<S>,
    ))
        requires
            old(self).inv(),
        ensures
            final(self).inv(),
            final(self).device_table().contents() == spec_add(
                old(self).device_table().contents(),
                name@,
                fd,
                handle,
            ),
            final(self).client_count() == 0,
            r.1@.len() == old(self).client_count(),
            forall|i: int|
                0 <= i < old(self).client_count() ==> r.1@[old(self).client_count() - 1 - i]
                    == #[trigger] old(self).client_at(i).socket_of(),
    {
        let evicted = self.devices.add(name, fd, handle);
        let mut conns: Vec<Conn<S>> = Vec::new();
        std::mem::swap(&mut self.conns, &mut conns);
        self.sent = Ghost(Seq::empty());
        self.hello_at = Ghost(Seq::empty());
        self.catchup = Ghost(Seq::empty());
        assert(self.client_fds() =~= Seq::<u64>::empty());
        let mut sockets: Vec<S> = Vec::new();
        let n = conns.len();
        let ghost all = conns@;
        assert(all == old(self).conns@);
        while conns.len() > 0
            invariant
                sockets@.len() + conns@.len() == n,
                n == all.len(),
                conns@ == all.subrange(0, conns@.len() as int),
                forall|k: int| 0 <= k < sockets@.len() ==> sockets@[k] == all[n - 1 - k].client.socket_of(),
            decreases conns@.len(),
        {
            let c = conns.pop().unwrap();
            sockets.push(c.client.into_socket());
        }
        (evicted, sockets)
    }

    fn feed_at(&mut self, i: usize, chunk: &[u8]) -> (r: Result<ReadReply, ReadError>)
        requires
            old(self).inv(),
            i < old(self).client_count(),
            !old(self).client_at(i as int).is_ready_spec(),
            !old(self).client_at(i as int).mismatched(HELLO_SIZE),
            0 < chunk@.len() <= old(self).client_at(i as int).spec_room(HELLO_SIZE),
        ensures
            final(self).inv(),
            final(self).client_fds() == old(self).client_fds(),
            final(self).device_table() == old(self).device_table(),
            old(self).client_at(i as int).pending().len() + chunk@.len() == HELLO_SIZE ==> r matches Ok(ReadReply::Data(_)),
            old(self).client_at(i as int).pending().len() + chunk@.len() < HELLO_SIZE ==> r matches Ok(ReadReply::NotReady),
    {
        let mut conn = self.conns.remove(i);
        let r = conn.client.feed(HELLO_SIZE, chunk);
        self.conns.insert(i, conn);
        assert(self.conns@ =~= old(self).conns@.update(i as int, conn));
        assert(self.client_fds() =~= old(self).client_fds());
        assert forall|k: int| 0 <= k < self.client_count() implies #[trigger] self.client_at(k).wf() by {
            if k != i {
                assert(old(self).client_at(k).wf());
            }
        }
        assert forall|k: int|
            0 <= k < self.client_count() implies (if #[trigger] self.client_at(k).is_ready_spec() {
                greeted(self.sent_to(k), self.hello_index(k), self.catchup_of(k))
            } else {
                no_hello(self.sent_to(k))
            }) by {
            assert(old(self).client_at(k).is_ready_spec() ==> greeted(old(self).sent_to(k), old(self).hello_index(k), old(self).catchup_of(k)));
            assert(!old(self).client_at(k).is_ready_spec() ==> no_hello(old(self).sent_to(k)));
        }
        assert forall|k: int, d: u64|
            0 <= k < self.client_count() && #[trigger] self.client_at(k).is_ready_spec()
                && #[trigger] self.device_table().has_fd(d) implies live(self.sent_to(k), d) by {
            assert(old(self).client_at(k).is_ready_spec());
        }
        r
    }

    /// How many bytes of its hello the client on `fd` may send next; `None`
    /// when there is no such client or it has said hello already.
    pub fn hello_room(&self, fd: u64) -> (r: Option<Result<usize, ReadError>>)
        requires
            self.inv(),
        ensures
            r is None <==> !self.is_client(fd) || self.client_at(self.index_of(fd)).is_ready_spec(),
            r matches Some(x) ==> {
                let c = self.client_at(self.index_of(fd));
                &&& (x is Err <==> c.mismatched(HELLO_SIZE))
                &&& (x is Ok ==> x->Ok_0 == c.spec_room(HELLO_SIZE))
            },
    {
        match self.find_client(fd) {
            Some(i) => {
                assert(self.index_of(fd) == i as int);
                assert(self.client_at(i as int).wf());
                if self.conns[i].client.is_ready() {
                    None
                } else {
                    Some(self.conns[i].client.room(HELLO_SIZE))
                }
            },
            None => None,
        }
    }

    /// Takes the bytes that one read of the socket of client `fd` produced
    /// while it has not said hello; an empty `chunk` means it hung up. A client
    /// that hung up, or sent more than its hello, is dropped.
    pub fn feed_hello(&mut self, fd: u64, chunk: &[u8]) -> (r: HelloProgress<S>)
        requires
            old(self).inv(),
        ensures
            final(self).inv(),
            final(self).device_table() == old(self).device_table(),
            (r is Ignored) <==> (!old(self).is_client(fd) || old(self).client_at(old(self).index_of(fd)).is_ready_spec()),
            r is Dropped ==> !final(self).is_client(fd),
            r matches HelloProgress::Dropped(sock) ==> sock == old(self).client_at(old(self).index_of(fd)).socket_of(),
            !(r is Dropped) ==> final(self).client_fds() == old(self).client_fds(),
            !(r is Ignored) ==> {
                let c = old(self).client_at(old(self).index_of(fd));
                &&& (r is Dropped <==> (chunk@.len() == 0 || c.mismatched(HELLO_SIZE) || chunk@.len() > c.spec_room(HELLO_SIZE)))
                &&& (r is Complete <==> !(r is Dropped) && c.pending().len() + chunk@.len() == HELLO_SIZE)
                &&& (r is Pending <==> !(r is Dropped) && c.pending().len() + chunk@.len() < HELLO_SIZE)
            },
    {
        let i = match self.find_client(fd) {
            Some(i) => i,
            None => {
                return HelloProgress::Ignored;
            },
        };
        assert(self.index_of(fd) == i as int);
        if self.conns[i].client.is_ready() {
            return HelloProgress::Ignored;
        }
        assert(self.client_at(i as int).wf());
        assert(self.is_client(fd));
        let drop_it = match self.conns[i].client.room(HELLO_SIZE) {
            Ok(n) => chunk.len() > n || chunk.len() == 0,
            Err(_) => true,
        };
        if drop_it {
            match self.hang_up(fd) {
                Some(sock) => {
                    return HelloProgress::Dropped(sock);
                },
                None => {
                    return HelloProgress::Ignored;
                },
            }
        }
        match self.feed_at(i, chunk) {
            Ok(ReadReply::Data(_)) => HelloProgress::Complete,
            Ok(ReadReply::NotReady) => HelloProgress::Pending,
            _ => {
                match self.hang_up(fd) {
                    Some(sock) => HelloProgress::Dropped(sock),
                    None => HelloProgress::Ignored,
                }
            },
        }
    }

    /// `ds` describes every registered device exactly once, each well-formed.
    pub open spec fn describes_all(&self, ds: Seq<Descriptor>) -> bool {
        &&& forall|k: int| 0 <= k < ds.len() ==> descriptor_ok(#[trigger] ds[k])
        &&& ids_of(ds).no_duplicates()
        &&& forall|d: u64| ids_of(ds).contains(d) <==> self.device_table().has_fd(d)
    }

    fn check_describes_all(&self, descs: &Vec<Descriptor>) -> (r: bool)
        requires
            self.inv(),
        ensures
            r == self.describes_all(descs@),
    {
        let mut k: usize = 0;
        while k < descs.len()
            invariant
                self.inv(),
                k <= descs@.len(),
                forall|j: int| 0 <= j < k ==> descriptor_ok(#[trigger] descs@[j]),
                forall|a: int, b: int| 0 <= a < b < k ==> descs@[a].dev.id != descs@[b].dev.id,
                forall|j: int| 0 <= j < k ==> self.device_table().has_fd(#[trigger] descs@[j].dev.id),
            decreases descs@.len() - k,
        {
            if !check_descriptor(&descs[k]) {
                return false;
            }
            let mut j: usize = 0;
            while j < k
                invariant
                    j <= k,
                    k < descs@.len(),
                    forall|a: int| 0 <= a < j ==> descs@[a].dev.id != descs@[k as int].dev.id,
                decreases k - j,
            {
                if descs[j].dev.id == descs[k].dev.id {
                    assert(!ids_of(descs@).no_duplicates()) by {
                        assert(ids_of(descs@)[j as int] == ids_of(descs@)[k as int]);
                    }
                    return false;
                }
                j = j + 1;
            }
            if self.devices.get(descs[k].dev.id).is_none() {
                assert(ids_of(descs@).contains(descs@[k as int].dev.id)) by {
                    assert(ids_of(descs@)[k as int] == descs@[k as int].dev.id);
                }
                return false;
            }
            k = k + 1;
        }
        let ghost ids = ids_of(descs@);
        assert(ids.no_duplicates()) by {
            assert forall|a: int, b: int| 0 <= a < ids.len() && 0 <= b < ids.len() && a != b implies ids[a] != ids[b] by {
                if a < b {
                    assert(descs@[a].dev.id != descs@[b].dev.id);
                } else {
                    assert(descs@[b].dev.id != descs@[a].dev.id);
                }
            }
        }
        let fds = self.devices.fds();
        let mut m: usize = 0;
        while m < fds.len()
            invariant
                self.inv(),
                m <= fds@.len(),
                forall|fd: u64| fds@.contains(fd) <==> self.device_table().has_fd(fd),
                ids == ids_of(descs@),
                forall|j: int| 0 <= j < m ==> ids.contains(#[trigger] fds@[j]),
            decreases fds@.len() - m,
        {
            let mut j: usize = 0;
            let mut found = false;
            while j < descs.len()
                invariant
                    j <= descs@.len(),
                    ids == ids_of(descs@),
                    m < fds@.len(),
                    found ==> ids.contains(fds@[m as int]),
                    !found ==> forall|a: int| 0 <= a < j ==> ids[a] != fds@[m as int],
                decreases descs@.len() - j,
            {
                if descs[j].dev.id == fds[m] {
                    found = true;
                    assert(ids[j as int] == fds@[m as int]);
                }
                j = j + 1;
            }
            if !found {
                assert(!ids.contains(fds@[m as int]));
                assert(fds@.contains(fds@[m as int]));
                assert(self.device_table().has_fd(fds@[m as int]));
                assert(!self.describes_all(descs@));
                return false;
            }
            m = m + 1;
        }
        assert forall|d: u64| ids.contains(d) <==> self.device_table().has_fd(d) by {
            if ids.contains(d) {
                let a = choose|a: int| 0 <= a < ids.len() && ids[a] == d;
                assert(self.device_table().has_fd(descs@[a].dev.id));
            }
            if self.device_table().has_fd(d) {
                assert(fds@.contains(d));
                let a = choose|a: int| 0 <= a < fds@.len() && fds@[a] == d;
                assert(ids.contains(fds@[a]));
            }
        }
        true
    }

    /// Answers the completed hello of client `fd`: a `ServerHello`, then the
    /// `AddDevice` frame of every registered device, as described by `descs`.
    /// The client is then ready.
    pub fn greet(&mut self, fd: u64, descs: &Vec<Descriptor>) -> (r: Result<Vec<u8>, GreetError>)
        requires
            old(self).inv(),
        ensures
            final(self).inv(),
            final(self).device_table() == old(self).device_table(),
            final(self).client_fds() == old(self).client_fds(),
            (r == Err::<Vec<u8>, GreetError>(GreetError::UnknownClient)) <==> !old(self).is_client(fd),
            old(self).is_client(fd) && old(self).client_at(old(self).index_of(fd)).is_ready_spec()
                ==> r == Err::<Vec<u8>, GreetError>(GreetError::AlreadyReady),
            old(self).is_client(fd) && !old(self).client_at(old(self).index_of(fd)).is_ready_spec()
                ==> (r is Ok <==> old(self).describes_all(descs@)),
            r is Err ==> forall|i: int| 0 <= i < final(self).client_count() ==> #[trigger] final(self).sent_to(i) == old(self).sent_to(i),
            r matches Ok(bytes) ==> {
                let i = old(self).index_of(fd);
                &&& bytes@ == (ServerHello { version: PROTOCOL_VERSION }).spec_encode() + frames_of(descs@)
                &&& final(self).client_at(i).is_ready_spec()
                &&& final(self).sent_to(i) == old(self).sent_to(i) + seq![Sent::Hello] + adds_of(ids_of(descs@))
                &&& final(self).hello_index(i) == old(self).sent_to(i).len()
                &&& final(self).catchup_of(i) == ids_of(descs@)
                &&& forall|d: u64| final(self).catchup_of(i).contains(d) <==> old(self).device_table().has_fd(d)
            },
    {
        let i = match self.find_client(fd) {
            Some(i) => i,
            None => {
                return Err(GreetError::UnknownClient);
            },
        };
        assert(self.index_of(fd) == i as int);
        if self.conns[i].client.is_ready() {
            return Err(GreetError::AlreadyReady);
        }
        if !self.check_describes_all(descs) {
            return Err(GreetError::Mismatch);
        }
        let mut out = ServerHello { version: PROTOCOL_VERSION }.encode();
        let mut k: usize = 0;
        while k < descs.len()
            invariant
                k <= descs@.len(),
                self.describes_all(descs@),
                out@ == (ServerHello { version: PROTOCOL_VERSION }).spec_encode() + frames_of(descs@.subrange(0, k as int)),
            decreases descs@.len() - k,
        {
            assert(descriptor_ok(descs@[k as int]));
            let frame = add_device_frame(&descs[k].dev, &descs[k].infos);
            let mut j: usize = 0;
            let ghost before = out@;
            while j < frame.len()
                invariant
                    j <= frame@.len(),
                    out@ == before + frame@.subrange(0, j as int),
                decreases frame@.len() - j,
            {
                out.push(frame[j]);
                j = j + 1;
                assert(out@ =~= before + frame@.subrange(0, j as int));
            }
            assert(frame@.subrange(0, j as int) =~= frame@);
            k = k + 1;
            assert(descs@.subrange(0, k as int).drop_last() =~= descs@.subrange(0, k - 1));
            assert(out@ =~= (ServerHello { version: PROTOCOL_VERSION }).spec_encode() + frames_of(descs@.subrange(0, k as int)));
        }
        assert(descs@.subrange(0, k as int) =~= descs@);
        let ghost ids = ids_of(descs@);
        let ghost l0 = self.sent@[i as int];
        let ghost l1 = l0 + seq![Sent::Hello] + adds_of(ids);
        assert(no_hello(l0)) by {
            assert(!self.client_at(i as int).is_ready_spec());
        }
        let mut conn = self.conns.remove(i);
        conn.client.set_ready();
        self.conns.insert(i, conn);
        self.sent = Ghost(self.sent@.update(i as int, l1));
        self.hello_at = Ghost(self.hello_at@.update(i as int, l0.len() as int));
        self.catchup = Ghost(self.catchup@.update(i as int, ids));
        assert(self.conns@ =~= old(self).conns@.update(i as int, conn));
        assert(self.client_fds() =~= old(self).client_fds());
        assert(greeted(l1, l0.len() as int, ids)) by {
            assert forall|x: int| 0 <= x < l1.len() && x != l0.len() implies l1[x] != Sent::Hello by {
                if x < l0.len() {
                    assert(l1[x] == l0[x]);
                } else {
                    assert(l1[x] == Sent::Add(ids[x - l0.len() - 1]));
                }
            }
            assert forall|x: int| 0 <= x < ids.len() implies l1[l0.len() + 1 + x] == Sent::Add(ids[x]) by {}
        }
        assert forall|d: u64| #[trigger] self.device_table().has_fd(d) implies live(l1, d) by {
            assert(ids.contains(d));
            let x = choose|x: int| 0 <= x < ids.len() && ids[x] == d;
            assert(l1[l0.len() + 1 + x] == Sent::Add(d));
            assert forall|y: int| l0.len() + 1 + x < y < l1.len() implies l1[y] != Sent::Remove(d) by {
                assert(l1[y] == Sent::Add(ids[y - l0.len() - 1]));
            }
        }
        assert forall|k2: int| 0 <= k2 < self.client_count() implies #[trigger] self.client_at(k2).wf() by {
            if k2 != i {
                assert(old(self).client_at(k2).wf());
            } else {
                assert(old(self).client_at(i as int).wf());
            }
        }
        assert forall|k2: int|
            0 <= k2 < self.client_count() implies (if #[trigger] self.client_at(k2).is_ready_spec() {
                greeted(self.sent_to(k2), self.hello_index(k2), self.catchup_of(k2))
            } else {
                no_hello(self.sent_to(k2))
            }) by {
            if k2 != i {
                assert(old(self).client_at(k2).is_ready_spec() ==> greeted(old(self).sent_to(k2), old(self).hello_index(k2), old(self).catchup_of(k2)));
                assert(!old(self).client_at(k2).is_ready_spec() ==> no_hello(old(self).sent_to(k2)));
            }
        }
        assert forall|k2: int, d: u64|
            0 <= k2 < self.client_count() && #[trigger] self.client_at(k2).is_ready_spec()
                && #[trigger] self.device_table().has_fd(d) implies live(self.sent_to(k2), d) by {
            if k2 != i {
                assert(old(self).client_at(k2).is_ready_spec());
            }
        }
        Ok(out)
    }

    /// The socket of client `fd`.
    pub fn socket(&self, fd: u64) -> (r: Option<&S>)
        ensures
            r is Some <==> self.is_client(fd),
            r matches Some(sock) ==> exists|i: int|
                0 <= i < self.client_count() && self.client_fds()[i] == fd && *sock == #[trigger] self.client_at(i).socket_of(),
    {
        match self.find_client(fd) {
            Some(i) => {
                let sock = self.conns[i].client.socket();
                assert(*sock == self.client_at(i as int).socket_of());
                Some(sock)
            },
            None => None,
        }
    }

    /// The descriptors of all connected clients.
    pub fn clients(&self) -> (r: Vec<u64>)
        ensures
            r@ == self.client_fds(),
    {
        let mut r: Vec<u64> = Vec::new();
        let mut i: usize = 0;
        while i < self.conns.len()
            invariant
                i <= self.conns@.len(),
                r@ == self.client_fds().subrange(0, i as int),
            decreases self.conns@.len() - i,
        {
            r.push(self.conns[i].fd);
            i = i + 1;
            assert(r@ =~= self.client_fds().subrange(0, i as int));
        }
        assert(r@ =~= self.client_fds());
        r
    }

    /// The descriptors of the clients that have completed their hello, in
    /// order of connection.
    pub fn ready_clients(&self) -> (r: Vec<u64>)
        ensures
            r@ == ready_fds(self),
    {
        let mut r: Vec<u64> = Vec::new();
        let mut i: usize = 0;
        while i < self.conns.len()
            invariant
                i <= self.conns@.len(),
                r@ == ready_fds_below(self, i as nat),
            decreases self.conns@.len() - i,
        {
            if self.conns[i].client.is_ready() {
                r.push(self.conns[i].fd);
            }
            i = i + 1;
        }
        r
    }
}

/// A ready client was sent exactly one hello answer, and right after it one
/// `AddDevice` for each device of its catch-up, each device once; `greet`
/// states that the catch-up is the set of devices registered when the hello
/// was answered.
pub proof fn lemma_ready_client_greeted<S, H>(s: &Server<S, H>, i: int)
    requires
        s.inv(),
        0 <= i < s.client_count(),
        s.client_at(i).is_ready_spec(),
    ensures
        ({
            let l = s.sent_to(i);
            let h = s.hello_index(i);
            let cu = s.catchup_of(i);
            &&& 0 <= h < l.len()
            &&& l[h] == Sent::Hello
            &&& forall|j: int| 0 <= j < l.len() && l[j] == Sent::Hello ==> j == h
            &&& cu.no_duplicates()
            &&& h + 1 + cu.len() <= l.len()
            &&& forall|k: int| 0 <= k < cu.len() ==> l[h + 1 + k] == Sent::Add(cu[k])
        }),
{
}

/// Every ready client has been told of every registered device and has not
/// been told since that it is gone.
pub proof fn lemma_ready_client_live<S, H>(s: &Server<S, H>, i: int, d: u64)
    requires
        s.inv(),
        0 <= i < s.client_count(),
        s.client_at(i).is_ready_spec(),
        s.device_table().has_fd(d),
    ensures
        exists|j: int|
            0 <= j < s.sent_to(i).len() && s.sent_to(i)[j] == Sent::Add(d) && forall|k: int|
                j < k < s.sent_to(i).len() ==> s.sent_to(i)[k] != Sent::Remove(d),
{
}

/// A client that has not completed its hello was sent no hello answer.
pub proof fn lemma_waiting_client_unanswered<S, H>(s: &Server<S, H>, i: int)
    requires
        s.inv(),
        0 <= i < s.client_count(),
        !s.client_at(i).is_ready_spec(),
    ensures
        forall|j: int| 0 <= j < s.sent_to(i).len() ==> s.sent_to(i)[j] != Sent::Hello,
{
}

/// Every client's read buffer is never left completely filled.
pub proof fn lemma_read_buffers_bounded<S, H>(s: &Server<S, H>, i: int)
    requires
        s.inv(),
        0 <= i < s.client_count(),
    ensures
        s.client_at(i).filled_count() <= s.client_at(i).buf_len(),
        s.client_at(i).buf_len() > 0 ==> s.client_at(i).filled_count() < s.client_at(i).buf_len(),
{
    assert(s.client_at(i).wf());
}

} // verus!
