use vstd::prelude::*;

verus! {

/// What one reader of the bus holds: whether it is still subscribed, the
/// messages waiting for it, oldest first, and how many it has missed since
/// it last learnt of a lag.
pub struct ReaderState {
    pub active: bool,
    pub queue: Seq<Seq<char>>,
    pub lagged: nat,
}

/// One publication as one reader sees it: an active reader with a full
/// buffer loses its oldest message and counts the loss.
pub open spec fn publish_one(r: ReaderState, m: Seq<char>, cap: nat) -> ReaderState {
    if !r.active {
        r
    } else if r.queue.len() < cap {
        ReaderState { active: true, queue: r.queue.push(m), lagged: r.lagged }
    } else {
        ReaderState {
            active: true,
            queue: r.queue.drop_first().push(m),
            lagged: if r.lagged < u64::MAX { r.lagged + 1 } else { r.lagged },
        }
    }
}

/// One publication as all readers see it.
pub open spec fn publish_spec(v: Seq<ReaderState>, m: Seq<char>, cap: nat) -> Seq<ReaderState> {
    Seq::new(v.len(), |i: int| publish_one(v[i], m, cap))
}

/// Several publications, in order.
pub open spec fn publish_all(v: Seq<ReaderState>, ms: Seq<Seq<char>>, cap: nat) -> Seq<
    ReaderState,
>
    decreases ms.len(),
{
    if ms.len() == 0 {
        v
    } else {
        publish_spec(publish_all(v, ms.drop_last(), cap), ms.last(), cap)
    }
}

pub open spec fn count_active(v: Seq<ReaderState>) -> nat
    decreases v.len(),
{
    if v.len() == 0 {
        0
    } else {
        count_active(v.drop_last()) + if v.last().active {
            1nat
        } else {
            0nat
        }
    }
}

/// What a reader gets when it asks for its next event.
#[derive(Debug, PartialEq, Eq)]
pub enum RecvEvent {
    Message(String),
    /// The reader fell behind and this many messages were dropped for it.
    Lagged(u64),
    /// Nothing is waiting.
    Empty,
    /// The reader has been closed.
    Closed,
}

struct ReaderSlot {
    active: bool,
    queue: Vec<String>,
    lagged: u64,
}

impl ReaderSlot {
    closed spec fn state(&self) -> ReaderState {
        ReaderState {
            active: self.active,
            queue: self.queue@.map_values(|s: String| s@),
            lagged: self.lagged as nat,
        }
    }
}

/// A broadcast channel with a bounded buffer per reader.
pub struct Bus {
    capacity: usize,
    readers: Vec<ReaderSlot>,
}

impl Bus {
    pub closed spec fn spec_capacity(&self) -> nat {
        self.capacity as nat
    }

    pub closed spec fn readers(&self) -> Seq<ReaderState> {
        self.readers@.map_values(|r: ReaderSlot| r.state())
    }

    pub closed spec fn wf(&self) -> bool {
        &&& self.capacity > 0
        &&& forall|i: int|
            0 <= i < self.readers@.len() ==> (#[trigger] self.readers@[i]).queue@.len()
                <= self.capacity
    }

    pub fn new(capacity: usize) -> (r: Bus)
        requires
            capacity > 0,
        ensures
            r.wf(),
            r.spec_capacity() == capacity,
            r.readers() == Seq::<ReaderState>::empty(),
    {
        let b = Bus { capacity, readers: Vec::new() };
        assert(b.readers() =~= Seq::<ReaderState>::empty());
        b
    }

    /// Adds a reader, which sees the messages published from now on. Its
    /// identifier is its position.
    pub fn subscribe(&mut self) -> (id: usize)
        requires
            old(self).wf(),
        ensures
            final(self).wf(),
            final(self).spec_capacity() == old(self).spec_capacity(),
            id == old(self).readers().len(),
            final(self).readers() == old(self).readers().push(
                ReaderState { active: true, queue: Seq::empty(), lagged: 0 },
            ),
    {
        let id = self.readers.len();
        self.readers.push(ReaderSlot { active: true, queue: Vec::new(), lagged: 0 });
        proof {
            assert(self.readers@[id as int].queue@.map_values(|s: String| s@) =~= Seq::<
                Seq<char>,
            >::empty());
            assert(self.readers() =~= old(self).readers().push(
                ReaderState { active: true, queue: Seq::empty(), lagged: 0 },
            ));
        }
        id
    }

    /// Closes a reader: its buffer is dropped and it receives nothing more.
    pub fn unsubscribe(&mut self, id: usize)
        requires
            old(self).wf(),
            id < old(self).readers().len(),
        ensures
            final(self).wf(),
            final(self).spec_capacity() == old(self).spec_capacity(),
            final(self).readers() == old(self).readers().update(
                id as int,
                ReaderState { active: false, queue: Seq::empty(), lagged: 0 },
            ),
    {
        self.readers.set(id, ReaderSlot { active: false, queue: Vec::new(), lagged: 0 });
        proof {
            assert(self.readers@[id as int].queue@.map_values(|s: String| s@) =~= Seq::<
                Seq<char>,
            >::empty());
            assert(self.readers() =~= old(self).readers().update(
                id as int,
                ReaderState { active: false, queue: Seq::empty(), lagged: 0 },
            ));
        }
    }

    /// Delivers `msg` to every active reader; a reader whose buffer is full
    /// loses its oldest message instead of holding the publisher up.
    pub fn publish(&mut self, msg: &String)
        requires
            old(self).wf(),
        ensures
            final(self).wf(),
            final(self).spec_capacity() == old(self).spec_capacity(),
            final(self).readers() == publish_spec(
                old(self).readers(),
                msg@,
                old(self).spec_capacity(),
            ),
    {
        let n = self.readers.len();
        let ghost cap = self.capacity as nat;
        let ghost before = self.readers();
        let mut i: usize = 0;
        while i < n
            invariant
                self.wf(),
                self.capacity as nat == cap,
                n == self.readers@.len(),
                before.len() == n,
                i <= n,
                forall|j: int|
                    0 <= j < i ==> #[trigger] self.readers()[j] == publish_one(
                        before[j],
                        msg@,
                        cap,
                    ),
                forall|j: int| i <= j < n ==> #[trigger] self.readers()[j] == before[j],
            decreases n - i,
        {
            let ghost pre = self.readers@;
            let ghost pre_view = self.readers();
            assert(pre_view[i as int] == pre[i as int].state());
            let mut slot = self.readers.remove(i);
            let ghost r0 = slot.state();
            assert(r0 == before[i as int]);
            if slot.active {
                if slot.queue.len() < self.capacity {
                    slot.queue.push(msg.clone());
                } else {
                    slot.queue.remove(0);
                    slot.queue.push(msg.clone());
                    if slot.lagged < u64::MAX {
                        slot.lagged = slot.lagged + 1;
                    }
                }
            }
            proof {
                if r0.active {
                    if r0.queue.len() < cap {
                        assert(slot.state().queue =~= r0.queue.push(msg@));
                    } else {
                        assert(slot.state().queue =~= r0.queue.drop_first().push(msg@));
                    }
                }
                assert(slot.state() == publish_one(r0, msg@, cap));
            }
            self.readers.insert(i, slot);
            proof {
                assert(self.readers@ =~= pre.update(i as int, slot));
                assert forall|j: int| 0 <= j < n && j != i implies #[trigger] self.readers()[j]
                    == pre_view[j] by {
                    assert(self.readers@[j] == pre[j]);
                }
                assert(self.readers()[i as int] == slot.state());
            }
            i = i + 1;
        }
        assert(self.readers() =~= publish_spec(before, msg@, cap));
    }

    /// Takes the next event of reader `id`: a pending lag first, then the
    /// oldest waiting message.
    pub fn recv(&mut self, id: usize) -> (r: RecvEvent)
        requires
            old(self).wf(),
            id < old(self).readers().len(),
        ensures
            final(self).wf(),
            final(self).spec_capacity() == old(self).spec_capacity(),
            ({
                let s = old(self).readers()[id as int];
                let v = old(self).readers();
                if !s.active {
                    r == RecvEvent::Closed && final(self).readers() == v
                } else if s.lagged > 0 {
                    r == RecvEvent::Lagged(s.lagged as u64) && final(self).readers() == v.update(
                        id as int,
                        ReaderState { active: true, queue: s.queue, lagged: 0 },
                    )
                } else if s.queue.len() > 0 {
                    (r matches RecvEvent::Message(m) && m@ == s.queue[0]) && final(self).readers()
                        == v.update(
                        id as int,
                        ReaderState { active: true, queue: s.queue.drop_first(), lagged: 0 },
                    )
                } else {
                    r == RecvEvent::Empty && final(self).readers() == v
                }
            }),
    {
        let ghost pre = self.readers@;
        let ghost pre_view = self.readers();
        assert(pre_view[id as int] == pre[id as int].state());
        let mut slot = self.readers.remove(id);
        let ghost s0 = slot.state();
        let r;
        if !slot.active {
            r = RecvEvent::Closed;
        } else if slot.lagged > 0 {
            r = RecvEvent::Lagged(slot.lagged);
            slot.lagged = 0;
        } else if slot.queue.len() > 0 {
            let m = slot.queue.remove(0);
            assert(slot.state().queue =~= s0.queue.drop_first());
            r = RecvEvent::Message(m);
        } else {
            r = RecvEvent::Empty;
        }
        self.readers.insert(id, slot);
        proof {
            assert(self.readers@ =~= pre.update(id as int, slot));
            assert(self.readers() =~= pre_view.update(id as int, slot.state()));
            if !s0.active || (s0.lagged == 0 && s0.queue.len() == 0) {
                assert(slot.state() == s0);
                assert(self.readers() =~= pre_view);
            }
        }
        r
    }

    /// The number of readers that are still subscribed.
    pub fn reader_count(&self) -> (r: usize)
        ensures
            r == count_active(self.readers()),
    {
        let n = self.readers.len();
        let mut c: usize = 0;
        let mut i: usize = 0;
        while i < n
            invariant
                n == self.readers@.len(),
                i <= n,
                c <= i,
                c == count_active(self.readers().subrange(0, i as int)),
            decreases n - i,
        {
            proof {
                let v = self.readers();
                assert(v.subrange(0, i as int + 1).drop_last() =~= v.subrange(0, i as int));
            }
            if self.readers[i].active {
                c = c + 1;
            }
            i = i + 1;
        }
        assert(self.readers().subrange(0, n as int) =~= self.readers());
        c
    }
}

/// A reader that does not fall behind sees every message published after it
/// subscribed, in publication order, with nothing dropped: publishing `ms`
/// appends exactly `ms` to its buffer while there is room for them, and
/// leaves its lag count alone.
pub proof fn lemma_publish_in_order(
    v: Seq<ReaderState>,
    ms: Seq<Seq<char>>,
    cap: nat,
    id: int,
)
    requires
        0 <= id < v.len(),
        v[id].active,
        v[id].queue.len() + ms.len() <= cap,
    ensures
        publish_all(v, ms, cap).len() == v.len(),
        publish_all(v, ms, cap)[id].active,
        publish_all(v, ms, cap)[id].queue == v[id].queue + ms,
        publish_all(v, ms, cap)[id].lagged == v[id].lagged,
    decreases ms.len(),
{
    if ms.len() == 0 {
        assert(v[id].queue + ms =~= v[id].queue);
    } else {
        let init = ms.drop_last();
        lemma_publish_in_order(v, init, cap, id);
        assert(v[id].queue + init + seq![ms.last()] =~= v[id].queue + ms);
        assert((v[id].queue + init).push(ms.last()) =~= v[id].queue + init + seq![ms.last()]);
    }
}

/// Publication never changes what another reader holds except by the same
/// rule: the state of each reader after a publication depends on its own state
/// alone, so a slow reader cannot affect any other.
pub proof fn lemma_readers_independent(v: Seq<ReaderState>, m: Seq<char>, cap: nat, i: int)
    requires
        0 <= i < v.len(),
    ensures
        publish_spec(v, m, cap)[i] == publish_one(v[i], m, cap),
{
}

} // verus!
