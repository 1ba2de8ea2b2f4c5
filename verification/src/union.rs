//! Several subscriptions merged into one.
//!
//! The merged subscription remembers the last address that each of its
//! inputs yielded. Whenever an input yields a new one, the merged
//! subscription yields the union of what it remembers. An input that has
//! ended keeps its place: its last address stays in the union.
use vstd::prelude::*;
use crate::addr::{addresses_of, lemma_union_of, level_at, union, union_of, Address, Entries};
use crate::net::SocketAddr;
use crate::poll::{Async, Poll};

verus! {

/// The subscription that `union_stream` makes.
///
/// It does not poll its inputs itself. Its owner polls `streams` in their
/// order, up to and including the first that fails, and hands what came
/// back to [`poll`](Union::poll).
pub struct Union<S> {
    /// The inputs.
    pub streams: Vec<S>,
    /// What is remembered of each input.
    pub slots: Slots,
}

/// The last address that each input of a [`Union`] yielded, if it has
/// yielded one.
pub struct Slots {
    buf: Vec<Option<Address>>,
}

impl View for Slots {
    type V = Seq<Option<Seq<Entries>>>;

    closed spec fn view(&self) -> Seq<Option<Seq<Entries>>> {
        Seq::new(self.buf@.len(), |i: int| slot_view(self.buf@[i]))
    }
}

impl Slots {
    /// How many inputs there are.
    pub fn len(&self) -> (r: usize)
        ensures
            r == self@.len(),
    {
        self.buf.len()
    }
}

/// What an address slot holds, as levels.
pub open spec fn slot_view(slot: Option<Address>) -> Option<Seq<Entries>> {
    match slot {
        Some(a) => Some(a@),
        None => None,
    }
}

/// How many events stand before the first failure; all of them where none
/// is a failure.
pub open spec fn before_failure<E>(events: Seq<Poll<Option<Address>, E>>) -> nat
    decreases events.len(),
{
    if events.len() == 0 || events[0] is Err {
        0
    } else {
        1 + before_failure(events.drop_first())
    }
}

/// What a slot remembers after its input was polled: the new address where
/// the input yielded one, and what it remembered before where the input had
/// nothing ready or has ended.
pub open spec fn slot_after<E>(slot: Option<Seq<Entries>>, event: Poll<Option<Address>, E>) -> Option<
    Seq<Entries>,
> {
    match event {
        Ok(Async::Ready(Some(a))) => Some(a@),
        _ => slot,
    }
}

/// What the slots remember after the inputs were polled: the events before
/// the first failure reach their slots, the others do not.
pub open spec fn slots_after<E>(
    slots: Seq<Option<Seq<Entries>>>,
    events: Seq<Poll<Option<Address>, E>>,
) -> Seq<Option<Seq<Entries>>> {
    Seq::new(
        slots.len(),
        |i: int|
            if i < before_failure(events) {
                slot_after(slots[i], events[i])
            } else {
                slots[i]
            },
    )
}

/// Whether an input yielded a new address before the first failure.
pub open spec fn any_news<E>(events: Seq<Poll<Option<Address>, E>>) -> bool {
    exists|i: int|
        0 <= i < before_failure(events) && (#[trigger] events[i]) matches Ok(Async::Ready(Some(_)))
}

/// The addresses that the slots remember, in the order of the slots.
pub open spec fn remembered(slots: Seq<Option<Seq<Entries>>>) -> Seq<Seq<Entries>>
    decreases slots.len(),
{
    if slots.len() == 0 {
        Seq::empty()
    } else {
        match slots.last() {
            Some(a) => remembered(slots.drop_last()).push(a),
            None => remembered(slots.drop_last()),
        }
    }
}

/// The subscription to the union of what `streams` yield. It remembers
/// nothing yet.
pub fn union_stream<S>(streams: Vec<S>) -> (r: Union<S>)
    ensures
        r.streams == streams,
        r.slots() == Seq::new(streams@.len(), |i: int| None::<Seq<Entries>>),
{
    let mut buf: Vec<Option<Address>> = Vec::new();
    let mut i: usize = 0;
    while i < streams.len()
        invariant
            i <= streams.len(),
            buf@.len() == i,
            forall|k: int| 0 <= k < i ==> buf@[k] is None,
        decreases streams.len() - i,
    {
        buf.push(None);
        i += 1;
    }
    let r = Union { streams, slots: Slots { buf } };
    proof {
        assert(r.slots() =~= Seq::new(streams@.len(), |i: int| None::<Seq<Entries>>));
    }
    r
}

/// The union of `addresses`, as [`union`] makes it.
pub fn union_addresses(addresses: &[Address]) -> (r: Address)
    ensures
        r@ == union_of(Seq::new(addresses@.len(), |i: int| addresses@[i]@)),
{
    union(addresses)
}

/// What a slot remembers is among the remembered addresses.
pub proof fn lemma_remembered(slots: Seq<Option<Seq<Entries>>>, i: int)
    requires
        0 <= i < slots.len(),
        slots[i] is Some,
    ensures
        exists|k: int|
            0 <= k < remembered(slots).len() && #[trigger] remembered(slots)[k] == slots[i]->0,
    decreases slots.len(),
{
    let rest = slots.drop_last();
    if i == slots.len() - 1 {
        let k = remembered(rest).len() as int;
        assert(remembered(slots)[k] == slots[i]->0);
    } else {
        lemma_remembered(rest, i);
        let k = choose|k: int|
            0 <= k < remembered(rest).len() && #[trigger] remembered(rest)[k] == rest[i]->0;
        assert(remembered(slots)[k] == slots[i]->0);
    }
}

/// Whatever a slot remembers is reflected in the union that is yielded: each
/// address of the first level of a remembered address is in it, whether the
/// input of the slot has just yielded it, yielded it long ago, or has ended
/// since.
pub proof fn lemma_union_reflects(slots: Seq<Option<Seq<Entries>>>, i: int, a: SocketAddr)
    requires
        0 <= i < slots.len(),
        slots[i] is Some,
        addresses_of(level_at(slots[i]->0, 0)).contains(a),
    ensures
        addresses_of(union_of(remembered(slots))[0]).contains(a),
{
    lemma_remembered(slots, i);
    lemma_union_of(remembered(slots));
    let k = choose|k: int|
        0 <= k < remembered(slots).len() && #[trigger] remembered(slots)[k] == slots[i]->0;
    assert(addresses_of(level_at(remembered(slots)[k], 0)).contains(a));
}

/// `before_failure` stops at the first failure and not before.
proof fn lemma_before_failure<E>(events: Seq<Poll<Option<Address>, E>>, i: int)
    requires
        0 <= i <= events.len(),
        forall|k: int| 0 <= k < i ==> (#[trigger] events[k]) is Ok,
    ensures
        i < events.len() && events[i] is Err ==> before_failure(events) == i,
        i == events.len() ==> before_failure(events) == i,
        before_failure(events) >= i,
    decreases i,
{
    if i > 0 {
        let rest = events.drop_first();
        assert(events[0] is Ok);
        assert forall|k: int| 0 <= k < i - 1 implies (#[trigger] rest[k]) is Ok by {
            assert(rest[k] == events[k + 1]);
        }
        lemma_before_failure(rest, i - 1);
        if i < events.len() {
            assert(rest[i - 1] == events[i]);
        }
    }
}

impl<S> Union<S> {
    /// What each slot remembers: the last address that its input yielded,
    /// if it has yielded one.
    pub open spec fn slots(&self) -> Seq<Option<Seq<Entries>>> {
        self.slots@
    }

    /// One poll of the merged subscription. `events` holds what the polls
    /// of the inputs brought, in the order of the inputs, up to and
    /// including the first failure.
    ///
    /// Each address that an input yielded takes the place of what its slot
    /// remembered. The first failure is handed on as it is, and what stands
    /// after it is not looked at. Without a failure the poll yields the
    /// union of what the slots now remember where an input yielded
    /// something, and has nothing ready where none did.
    pub fn poll<E>(&mut self, events: Vec<Poll<Option<Address>, E>>) -> (r: Poll<
        Option<Address>,
        E,
    >)
        requires
            events@.len() <= old(self).slots().len(),
        ensures
            final(self).streams == old(self).streams,
            final(self).slots() == slots_after(old(self).slots(), events@),
            before_failure(events@) < events@.len() ==> r == Err::<Async<Option<Address>>, E>(
                events@[before_failure(events@) as int]->Err_0,
            ),
            before_failure(events@) == events@.len() && !any_news(events@) ==> r == Ok::<
                Async<Option<Address>>,
                E,
            >(Async::NotReady),
            before_failure(events@) == events@.len() && any_news(events@) ==> (r matches Ok(
                Async::Ready(Some(a)),
            ) && a@ == union_of(remembered(final(self).slots()))),
    {
        let ghost ev = events@;
        let ghost slots = self.slots();
        let count: usize = events.len();
        let mut changed = false;
        let mut i: usize = 0;
        for event in it: events
            invariant
                it.seq() == ev,
                ev == events@,
                ev.len() == count,
                slots == old(self).slots(),
                i == it.index(),
                ev.len() <= slots.len(),
                self.streams == old(self).streams,
                self.slots().len() == slots.len(),
                forall|k: int| 0 <= k < i ==> (#[trigger] ev[k]) is Ok,
                forall|k: int|
                    0 <= k < slots.len() ==> #[trigger] self.slots()[k] == if k < i {
                        slot_after(slots[k], ev[k])
                    } else {
                        slots[k]
                    },
                changed == exists|k: int|
                    0 <= k < i && (#[trigger] ev[k]) matches Ok(Async::Ready(Some(_))),
        {
            let ghost before = self.slots();
            match event {
                Err(e) => {
                    proof {
                        lemma_before_failure(ev, i as int);
                        assert(self.slots() =~= slots_after(slots, ev));
                    }
                    return Err(e);
                },
                Ok(Async::Ready(Some(a))) => {
                    self.slots.buf.set(i, Some(a));
                    changed = true;
                    proof {
                        assert(ev[i as int] matches Ok(Async::Ready(Some(_))));
                        assert forall|k: int| 0 <= k < slots.len() implies #[trigger] self.slots()[k]
                            == if k < i + 1 {
                            slot_after(slots[k], ev[k])
                        } else {
                            slots[k]
                        } by {
                            if k != i {
                                assert(self.slots()[k] == before[k]);
                            }
                        }
                    }
                },
                Ok(_) => {
                    proof {
                        assert(self.slots() =~= before);
                        if exists|k: int|
                            0 <= k < i + 1 && (#[trigger] ev[k]) matches Ok(Async::Ready(Some(_))) {
                            let k = choose|k: int|
                                0 <= k < i + 1 && (#[trigger] ev[k]) matches Ok(
                                    Async::Ready(Some(_)),
                                );
                            assert(k < i);
                        }
                    }
                },
            }
            i += 1;
        }
        proof {
            lemma_before_failure(ev, ev.len() as int);
            assert(self.slots() =~= slots_after(slots, ev));
        }
        if !changed {
            return Ok(Async::NotReady);
        }
        let mut present: Vec<Address> = Vec::new();
        let mut j: usize = 0;
        proof {
            assert(self.slots().take(0) =~= Seq::<Option<Seq<Entries>>>::empty());
        }
        while j < self.slots.buf.len()
            invariant
                j <= self.slots.buf.len(),
                Seq::new(present@.len(), |k: int| present@[k]@) == remembered(
                    self.slots().take(j as int),
                ),
            decreases self.slots.buf.len() - j,
        {
            proof {
                assert(self.slots().take(j + 1).drop_last() =~= self.slots().take(j as int));
                assert(self.slots().take(j + 1).last() == slot_view(self.slots.buf@[j as int]));
            }
            let ghost views = Seq::new(present@.len(), |k: int| present@[k]@);
            match &self.slots.buf[j] {
                Some(a) => {
                    present.push(a.clone());
                    proof {
                        assert(Seq::new(present@.len(), |k: int| present@[k]@) =~= views.push(a@));
                    }
                },
                None => {},
            }
            j += 1;
        }
        proof {
            assert(self.slots().take(j as int) =~= self.slots());
        }
        Ok(Async::Ready(Some(union(present.as_slice()))))
    }
}

} // verus!
