//! The client registry: each connected client's identity together with its
//! bounded outbound queue of encoded frames.
//!
//! Producers never touch sockets: a broadcast only enqueues. A full queue
//! skips that one delivery and nothing else; a client whose connection ended
//! is removed, so no later broadcast targets it.
use vstd::prelude::*;
use std::collections::VecDeque;

verus! {

/// How many frames a client's outbound queue holds at most.
pub const OUTBOX_CAPACITY: usize = 100;

/// What became of one enqueue attempt.
#[derive(Debug, Clone, Copy, PartialEq, Eq, Structural)]
pub enum Delivery {
    Delivered,
    Full,
}

/// What a connection's write side finds when it asks for the next frame.
#[derive(Debug)]
pub enum Pull {
    /// The oldest queued frame, now taken off the queue.
    Frame(Vec<u8>),
    /// Nothing is queued yet.
    Empty,
    /// The client is not registered (any more).
    Gone,
}

/// One client as the contracts see it: its identity and its queued frames,
/// oldest first.
pub struct ClientState {
    pub id: Seq<char>,
    pub queued: Seq<Seq<u8>>,
}

pub open spec fn unique_ids(cs: Seq<ClientState>) -> bool {
    forall|i: int, j: int| 0 <= i < j < cs.len() ==> cs[i].id != cs[j].id
}

pub open spec fn has_client(cs: Seq<ClientState>, id: Seq<char>) -> bool {
    exists|i: int| 0 <= i < cs.len() && cs[i].id == id
}

/// Where `id` stands in `cs`, if it does.
pub open spec fn client_index(cs: Seq<ClientState>, id: Seq<char>) -> int {
    choose|i: int| 0 <= i < cs.len() && cs[i].id == id
}

pub open spec fn fresh_client(id: Seq<char>) -> ClientState {
    ClientState { id, queued: Seq::empty() }
}

/// Registering: a new client is appended with an empty queue; an id that is
/// already present gets a fresh empty queue in its place (last write wins).
pub open spec fn register_spec(cs: Seq<ClientState>, id: Seq<char>) -> Seq<ClientState> {
    if has_client(cs, id) {
        cs.update(client_index(cs, id), fresh_client(id))
    } else {
        cs.push(fresh_client(id))
    }
}

/// Unregistering removes the client if it is present and does nothing else.
pub open spec fn unregister_spec(cs: Seq<ClientState>, id: Seq<char>) -> Seq<ClientState> {
    if has_client(cs, id) {
        cs.remove(client_index(cs, id))
    } else {
        cs
    }
}

/// A client's queue has room for one more frame.
pub open spec fn accepts(c: ClientState) -> bool {
    c.queued.len() < OUTBOX_CAPACITY
}

/// One enqueue attempt of `frame` for `c`.
pub open spec fn deliver(c: ClientState, frame: Seq<u8>) -> ClientState {
    if accepts(c) {
        ClientState { id: c.id, queued: c.queued.push(frame) }
    } else {
        c
    }
}

pub open spec fn delivery_of(c: ClientState) -> Delivery {
    if accepts(c) {
        Delivery::Delivered
    } else {
        Delivery::Full
    }
}

/// A broadcast makes one enqueue attempt for every registered client.
pub open spec fn broadcast_spec(cs: Seq<ClientState>, frame: Seq<u8>) -> Seq<ClientState> {
    cs.map_values(|c: ClientState| deliver(c, frame))
}

/// Taking the oldest frame of a client off its queue.
pub open spec fn pull_spec(cs: Seq<ClientState>, id: Seq<char>) -> Seq<ClientState> {
    if has_client(cs, id) && cs[client_index(cs, id)].queued.len() > 0 {
        let i = client_index(cs, id);
        cs.update(i, ClientState { id, queued: cs[i].queued.drop_first() })
    } else {
        cs
    }
}

struct Entry {
    id: String,
    frames: VecDeque<Vec<u8>>,
}

impl Entry {
    spec fn state(&self) -> ClientState {
        ClientState { id: self.id@, queued: self.frames@.map_values(|f: Vec<u8>| f@) }
    }
}

/// The registry of connected clients.
pub struct ClientRegistry {
    entries: Vec<Entry>,
}

impl ClientRegistry {
    /// The registered clients, in registration order.
    pub closed spec fn clients(&self) -> Seq<ClientState> {
        self.entries@.map_values(|e: Entry| e.state())
    }

    /// Identities are unique and no queue is over its capacity.
    pub open spec fn wf(&self) -> bool {
        &&& unique_ids(self.clients())
        &&& forall|i: int|
            0 <= i < self.clients().len() ==> self.clients()[i].queued.len() <= OUTBOX_CAPACITY
    }

    pub fn new() -> (r: ClientRegistry)
        ensures
            r.wf(),
            r.clients() == Seq::<ClientState>::empty(),
    {
        let r = ClientRegistry { entries: Vec::new() };
        assert(r.clients() =~= Seq::<ClientState>::empty());
        r
    }

    /// Number of registered clients.
    pub fn len(&self) -> (n: usize)
        ensures
            n == self.clients().len(),
    {
        self.entries.len()
    }

    fn find(&self, id: &String) -> (r: Option<usize>)
        requires
            self.wf(),
        ensures
            r.is_some() == has_client(self.clients(), id@),
            r matches Some(i) ==> i == client_index(self.clients(), id@) && i < self.clients().len()
                && self.clients()[i as int].id == id@,
    {
        let ghost cs = self.clients();
        let mut i: usize = 0;
        while i < self.entries.len()
            invariant
                cs == self.clients(),
                self.wf(),
                i <= self.entries@.len(),
                cs.len() == self.entries@.len(),
                forall|k: int| 0 <= k < i ==> cs[k].id != id@,
            decreases self.entries@.len() - i,
        {
            if self.entries[i].id == *id {
                assert(cs[i as int].id == id@);
                let ghost j = client_index(cs, id@);
                assert(cs[j].id == id@);
                assert(j == i as int);
                return Some(i);
            }
            i = i + 1;
        }
        None
    }

    /// Whether `id` is registered.
    pub fn contains(&self, id: &String) -> (r: bool)
        requires
            self.wf(),
        ensures
            r == has_client(self.clients(), id@),
    {
        self.find(id).is_some()
    }

    /// The identities of all registered clients, in registration order.
    pub fn snapshot(&self) -> (r: Vec<String>)
        ensures
            r@.len() == self.clients().len(),
            forall|i: int| 0 <= i < r@.len() ==> r@[i]@ == self.clients()[i].id,
    {
        let mut r: Vec<String> = Vec::new();
        let mut i: usize = 0;
        while i < self.entries.len()
            invariant
                i <= self.entries@.len(),
                r@.len() == i,
                forall|k: int| 0 <= k < i ==> r@[k]@ == self.clients()[k].id,
            decreases self.entries@.len() - i,
        {
            r.push(self.entries[i].id.clone());
            i = i + 1;
        }
        r
    }

    /// Registers `id` with an empty outbound queue.
    pub fn register(&mut self, id: String)
        requires
            old(self).wf(),
        ensures
            final(self).wf(),
            final(self).clients() == register_spec(old(self).clients(), id@),
    {
        let ghost cs = self.clients();
        let fresh = Entry { id: id.clone(), frames: VecDeque::new() };
        assert(fresh.state() == fresh_client(id@)) by {
            assert(fresh.state().queued =~= Seq::<Seq<u8>>::empty());
        }
        match self.find(&id) {
            Some(i) => {
                self.entries.set(i, fresh);
                assert(self.clients() =~= cs.update(i as int, fresh_client(id@)));
            },
            None => {
                self.entries.push(fresh);
                assert(self.clients() =~= cs.push(fresh_client(id@)));
            },
        }
    }

    /// Removes `id`; does nothing when it is not registered.
    pub fn unregister(&mut self, id: &String)
        requires
            old(self).wf(),
        ensures
            final(self).wf(),
            final(self).clients() == unregister_spec(old(self).clients(), id@),
            !has_client(final(self).clients(), id@),
    {
        let ghost cs = self.clients();
        match self.find(id) {
            Some(i) => {
                self.entries.remove(i);
                assert(self.clients() =~= cs.remove(i as int));
            },
            None => {},
        }
    }

    /// Enqueues a copy of `frame` for every registered client. A client whose
    /// queue is full misses this frame; every other client gets it. The
    /// result holds one outcome per client, in registration order.
    pub fn broadcast(&mut self, frame: &Vec<u8>) -> (r: Vec<Delivery>)
        requires
            old(self).wf(),
        ensures
            final(self).wf(),
            final(self).clients() == broadcast_spec(old(self).clients(), frame@),
            r@.len() == old(self).clients().len(),
            forall|i: int| 0 <= i < r@.len() ==> r@[i] == delivery_of(old(self).clients()[i]),
    {
        let ghost cs = self.clients();
        let ghost target = broadcast_spec(cs, frame@);
        let mut r: Vec<Delivery> = Vec::new();
        let mut i: usize = 0;
        while i < self.entries.len()
            invariant
                cs.len() == self.entries@.len(),
                i <= self.entries@.len(),
                target == broadcast_spec(cs, frame@),
                forall|k: int| 0 <= k < i ==> self.clients()[k] == target[k],
                forall|k: int| i <= k < cs.len() ==> self.clients()[k] == cs[k],
                forall|k: int|
                    0 <= k < cs.len() ==> cs[k].queued.len() <= OUTBOX_CAPACITY,
                r@.len() == i,
                forall|k: int| 0 <= k < i ==> r@[k] == delivery_of(cs[k]),
            decreases self.entries@.len() - i,
        {
            let mut e = Entry { id: String::new(), frames: VecDeque::new() };
            self.entries.set_and_swap(i, &mut e);
            assert(e.state() == cs[i as int]);
            if e.frames.len() < OUTBOX_CAPACITY {
                let copy = frame.clone();
                assert(copy@ =~= frame@);
                e.frames.push_back(copy);
                assert(e.state() == target[i as int]) by {
                    assert(e.state().queued =~= cs[i as int].queued.push(frame@));
                }
                r.push(Delivery::Delivered);
            } else {
                r.push(Delivery::Full);
            }
            self.entries.set_and_swap(i, &mut e);
            i = i + 1;
        }
        assert(self.clients() =~= target);
        r
    }

    /// Takes the oldest queued frame of `id`.
    pub fn pull(&mut self, id: &String) -> (r: Pull)
        requires
            old(self).wf(),
        ensures
            final(self).wf(),
            final(self).clients() == pull_spec(old(self).clients(), id@),
            match r {
                Pull::Gone => !has_client(old(self).clients(), id@),
                Pull::Empty => has_client(old(self).clients(), id@) && old(self).clients()[client_index(old(self).clients(), id@)].queued.len() == 0,
                Pull::Frame(f) => has_client(old(self).clients(), id@) && old(self).clients()[client_index(old(self).clients(), id@)].queued.len() > 0
                    && f@ == old(self).clients()[client_index(old(self).clients(), id@)].queued[0],
            },
    {
        let ghost cs = self.clients();
        match self.find(id) {
            None => Pull::Gone,
            Some(i) => {
                let mut e = Entry { id: String::new(), frames: VecDeque::new() };
                self.entries.set_and_swap(i, &mut e);
                assert(e.state() == cs[i as int]);
                let out = e.frames.pop_front();
                let ghost taken = e.state();
                self.entries.set_and_swap(i, &mut e);
                match out {
                    Some(f) => {
                        assert(taken.queued =~= cs[i as int].queued.drop_first());
                        assert(self.clients() =~= pull_spec(cs, id@));
                        Pull::Frame(f)
                    },
                    None => {
                        assert(self.clients() =~= cs);
                        Pull::Empty
                    },
                }
            },
        }
    }
}

/// A broadcast makes exactly one enqueue attempt per registered client: the
/// same clients stay, in the same order, and each queue either gains the
/// frame at its end or, when full, stays as it was.
pub proof fn lemma_fan_out(cs: Seq<ClientState>, frame: Seq<u8>)
    ensures
        broadcast_spec(cs, frame).len() == cs.len(),
        forall|i: int|
            0 <= i < cs.len() ==> {
                &&& #[trigger] broadcast_spec(cs, frame)[i].id == cs[i].id
                &&& broadcast_spec(cs, frame)[i].queued == if accepts(cs[i]) {
                    cs[i].queued.push(frame)
                } else {
                    cs[i].queued
                }
            },
{
}

/// A client registered after a broadcast did not get that frame, but it
/// gets the next one: right after registering, its queue holds exactly the
/// next broadcast frame.
pub proof fn lemma_late_joiner(cs: Seq<ClientState>, id: Seq<char>, frame: Seq<u8>)
    requires
        unique_ids(cs),
    ensures
        ({
            let after = broadcast_spec(register_spec(cs, id), frame);
            &&& has_client(after, id)
            &&& after[client_index(after, id)].queued == seq![frame]
        }),
{
    let reg = register_spec(cs, id);
    let after = broadcast_spec(reg, frame);
    let j = if has_client(cs, id) {
        client_index(cs, id)
    } else {
        cs.len() as int
    };
    assert(reg[j] == fresh_client(id));
    assert(after[j].id == id);
    assert(has_client(after, id));
    let k = client_index(after, id);
    if k != j {
        if has_client(cs, id) {
            assert(reg[k] == cs[k]);
        } else {
            assert(reg[k] == cs[k]);
            assert(has_client(cs, id));
        }
    }
    assert(after[j].queued =~= seq![frame]);
}

/// One client with a full queue does not hold back the others: when every
/// other client has room, all of them get the frame, the full one keeps its
/// queue, and the broadcast still covers every client.
pub proof fn lemma_isolation(cs: Seq<ClientState>, frame: Seq<u8>, full: int)
    requires
        0 <= full < cs.len(),
        !accepts(cs[full]),
        forall|i: int| 0 <= i < cs.len() && i != full ==> accepts(#[trigger] cs[i]),
    ensures
        broadcast_spec(cs, frame).len() == cs.len(),
        broadcast_spec(cs, frame)[full] == cs[full],
        forall|i: int|
            0 <= i < cs.len() && i != full ==> #[trigger] broadcast_spec(cs, frame)[i].queued
                == cs[i].queued.push(frame),
{
}

/// Frames reach a client in the order they were broadcast: after `m1` then
/// `m2`, a client with room for both holds them at the end of its queue in
/// that order, and a client whose queue was empty pulls `m1` first and `m2`
/// next.
pub proof fn lemma_per_client_order(cs: Seq<ClientState>, i: int, m1: Seq<u8>, m2: Seq<u8>)
    requires
        unique_ids(cs),
        0 <= i < cs.len(),
        cs[i].queued.len() + 2 <= OUTBOX_CAPACITY,
    ensures
        ({
            let after = broadcast_spec(broadcast_spec(cs, m1), m2);
            let id = cs[i].id;
            &&& after[i].queued == cs[i].queued + seq![m1, m2]
            &&& cs[i].queued.len() == 0 ==> {
                &&& after[client_index(after, id)].queued[0] == m1
                &&& pull_spec(after, id)[client_index(pull_spec(after, id), id)].queued[0] == m2
            }
        }),
{
    let once = broadcast_spec(cs, m1);
    let after = broadcast_spec(once, m2);
    let id = cs[i].id;
    assert(after[i].queued =~= cs[i].queued + seq![m1, m2]);
    assert(forall|k: int| 0 <= k < after.len() ==> after[k].id == cs[k].id);
    if cs[i].queued.len() == 0 {
        assert(after[i].id == id);
        let k = client_index(after, id);
        assert(k == i);
        let pulled = pull_spec(after, id);
        assert(pulled[i].queued =~= seq![m2]);
        assert(pulled[i].id == id);
        assert(forall|x: int| 0 <= x < pulled.len() ==> pulled[x].id == cs[x].id);
        let k2 = client_index(pulled, id);
        assert(k2 == i);
    }
}

} // verus!
