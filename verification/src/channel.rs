//! A queue that is bounded in slots and in bytes.
//!
//! Bytes are charged when an item enters the queue and stay charged until the
//! item that came out of it is released.
use std::collections::VecDeque;

use vstd::prelude::*;

verus! {

#[derive(Debug, Clone, Copy, PartialEq, Eq, Structural)]
pub enum ChannelConfigError {
    ZeroSlots,
    ZeroBytes,
}

impl ChannelConfigError {
    pub open spec fn describes(self) -> Seq<char> {
        match self {
            ChannelConfigError::ZeroSlots => "channel slot capacity must be nonzero"@,
            ChannelConfigError::ZeroBytes => "channel byte capacity must be nonzero"@,
        }
    }

    /// Describes the failure.
    pub fn message(&self) -> (text: String)
        ensures
            text@ == self.describes(),
    {
        match self {
            ChannelConfigError::ZeroSlots => "channel slot capacity must be nonzero".to_string(),
            ChannelConfigError::ZeroBytes => "channel byte capacity must be nonzero".to_string(),
        }
    }
}

/// Why an item was not taken; the item comes back.
#[derive(Debug, PartialEq, Eq)]
pub enum TrySendError<T> {
    TooLarge { item: T, bytes: usize, max_bytes: usize },
    ByteBudget { item: T, bytes: usize, available_bytes: usize },
    Full(T),
    Disconnected(T),
}

/// Why nothing came out of a queue.
#[derive(Debug, Clone, Copy, PartialEq, Eq, Structural)]
pub enum TryRecvError {
    Empty,
    Disconnected,
}

/// Every sender is gone and the queue is empty.
#[derive(Debug, Clone, Copy, PartialEq, Eq, Structural)]
pub struct RecvError;

#[derive(Debug, Clone, Copy, PartialEq, Eq, Structural)]
pub struct ChannelStats {
    pub used_bytes: usize,
    pub max_bytes: usize,
}

/// Bytes that are charged, out of those that may be.
#[derive(Debug, Clone, Copy, PartialEq, Eq, Structural)]
pub struct ByteBudget {
    used: usize,
    max: usize,
}

/// Why bytes could not be charged.
#[derive(Debug, Clone, Copy, PartialEq, Eq, Structural)]
pub enum ReserveError {
    TooLarge,
    Unavailable,
}

impl ByteBudget {
    pub closed spec fn spec_used(self) -> nat {
        self.used as nat
    }

    pub closed spec fn spec_max(self) -> nat {
        self.max as nat
    }

    /// No more is charged than may be.
    pub open spec fn wf(self) -> bool {
        self.spec_used() <= self.spec_max() <= usize::MAX
    }

    /// A budget of `max` bytes with nothing charged.
    pub fn new(max: usize) -> (budget: Self)
        ensures
            budget.wf(),
            budget.spec_used() == 0,
            budget.spec_max() == max,
    {
        ByteBudget { used: 0, max }
    }

    /// Charges `bytes` if they fit.
    pub fn try_reserve(&mut self, bytes: usize) -> (result: Result<(), ReserveError>)
        requires
            old(self).wf(),
        ensures
            final(self).wf(),
            final(self).spec_max() == old(self).spec_max(),
            result == (if bytes > old(self).spec_max() {
                Err::<(), ReserveError>(ReserveError::TooLarge)
            } else if old(self).spec_used() + bytes > old(self).spec_max() {
                Err(ReserveError::Unavailable)
            } else {
                Ok(())
            }),
            final(self).spec_used() == old(self).spec_used() + if result is Ok {
                bytes as nat
            } else {
                0
            },
    {
        if bytes > self.max {
            return Err(ReserveError::TooLarge);
        }
        match self.used.checked_add(bytes) {
            Some(next) => if next <= self.max {
                self.used = next;
                Ok(())
            } else {
                Err(ReserveError::Unavailable)
            },
            None => Err(ReserveError::Unavailable),
        }
    }

    /// Takes a charge back.
    pub fn release(&mut self, bytes: usize)
        requires
            old(self).wf(),
            bytes <= old(self).spec_used(),
        ensures
            final(self).wf(),
            final(self).spec_max() == old(self).spec_max(),
            final(self).spec_used() == old(self).spec_used() - bytes,
    {
        self.used = self.used - bytes;
    }

    #[must_use]
    pub fn stats(&self) -> (stats: ChannelStats)
        ensures
            stats.used_bytes == self.spec_used(),
            stats.max_bytes == self.spec_max(),
    {
        ChannelStats { used_bytes: self.used, max_bytes: self.max }
    }
}

/// An item together with the bytes that are charged for it.
#[derive(Debug)]
pub struct Budgeted<T> {
    item: T,
    charged_bytes: usize,
}

impl<T> Budgeted<T> {
    pub closed spec fn spec_item(self) -> T {
        self.item
    }

    pub closed spec fn spec_charge(self) -> nat {
        self.charged_bytes as nat
    }

    #[must_use]
    pub fn charged_bytes(&self) -> (bytes: usize)
        ensures
            bytes == self.spec_charge(),
    {
        self.charged_bytes
    }

    /// The item.
    pub fn get(&self) -> (item: &T)
        ensures
            *item == self.spec_item(),
    {
        &self.item
    }

    /// Takes the item out and its charge back.
    pub fn into_inner<U>(self, channel: &mut ByteBoundedChannel<U>) -> (item: T)
        requires
            old(channel).wf(),
            self.spec_charge() <= old(channel)@.outstanding(),
        ensures
            final(channel).wf(),
            item == self.spec_item(),
            final(channel)@ == old(channel)@.given_back(self.spec_charge()),
    {
        channel.budget.release(self.charged_bytes);
        self.item
    }

    /// Puts another item in the place of this one under the same charge. Where
    /// there is none, the charge is taken back.
    pub fn try_map<U, V, E, F: FnOnce(T) -> Result<V, E>>(
        self,
        channel: &mut ByteBoundedChannel<U>,
        map: F,
    ) -> (result: Result<Budgeted<V>, E>)
        requires
            old(channel).wf(),
            self.spec_charge() <= old(channel)@.outstanding(),
            map.requires((self.spec_item(),)),
        ensures
            final(channel).wf(),
            match result {
                Ok(mapped) => map.ensures((self.spec_item(),), Ok(mapped.spec_item()))
                    && mapped.spec_charge() == self.spec_charge() && final(channel)@ == old(
                    channel,
                )@,
                Err(error) => map.ensures((self.spec_item(),), Err(error)) && final(channel)@
                    == old(channel)@.given_back(self.spec_charge()),
            },
    {
        let Budgeted { item, charged_bytes } = self;
        match map(item) {
            Ok(mapped) => Ok(Budgeted { item: mapped, charged_bytes }),
            Err(error) => {
                channel.budget.release(charged_bytes);
                Err(error)
            },
        }
    }
}

/// A queue of charged items and who is connected to it.
pub ghost struct ChannelModel<T> {
    pub queue: Seq<Budgeted<T>>,
    pub slots: nat,
    pub used: nat,
    pub max: nat,
    pub senders: nat,
    pub receiving: bool,
}

/// Bytes charged for queued items.
pub open spec fn queued_bytes<T>(queue: Seq<Budgeted<T>>) -> nat
    decreases queue.len(),
{
    if queue.len() == 0 {
        0
    } else {
        queue[0].spec_charge() + queued_bytes(queue.skip(1))
    }
}

proof fn lemma_queued_push<T>(queue: Seq<Budgeted<T>>, item: Budgeted<T>)
    ensures
        queued_bytes(queue.push(item)) == queued_bytes(queue) + item.spec_charge(),
    decreases queue.len(),
{
    if queue.len() == 0 {
        assert(queue.push(item).skip(1) =~= Seq::<Budgeted<T>>::empty());
        assert(queued_bytes(queue.push(item).skip(1)) == 0);
        assert(queue.push(item)[0] == item);
    } else {
        assert(queue.push(item)[0] == queue[0]);
        assert(queue.push(item).skip(1) =~= queue.skip(1).push(item));
        lemma_queued_push(queue.skip(1), item);
    }
}

impl<T> ChannelModel<T> {
    /// Bytes charged for items that have left the queue.
    pub open spec fn outstanding(self) -> int {
        self.used - queued_bytes(self.queue)
    }

    /// An empty channel with one sender and a receiver.
    pub open spec fn fresh(slots: nat, max: nat) -> ChannelModel<T> {
        ChannelModel { queue: Seq::empty(), slots, used: 0, max, senders: 1, receiving: true }
    }

    /// The channel after an item was sent.
    pub open spec fn sent(self, item: Budgeted<T>) -> ChannelModel<T> {
        ChannelModel { queue: self.queue.push(item), used: self.used + item.spec_charge(), ..self }
    }

    /// The channel after the oldest item was received; it stays charged.
    pub open spec fn received(self) -> ChannelModel<T> {
        ChannelModel { queue: self.queue.skip(1), ..self }
    }

    /// The channel after the charge of a received item was given back.
    pub open spec fn given_back(self, charge: nat) -> ChannelModel<T> {
        ChannelModel { used: (self.used - charge) as nat, ..self }
    }

    /// The channel with another number of senders.
    pub open spec fn with_senders(self, senders: nat) -> ChannelModel<T> {
        ChannelModel { senders, ..self }
    }

    /// The channel after its receiver left: the queue is dropped.
    pub open spec fn closed(self) -> ChannelModel<T> {
        ChannelModel {
            queue: Seq::empty(),
            used: self.outstanding() as nat,
            receiving: false,
            ..self
        }
    }

    /// The queue is within both bounds, and what is queued is charged.
    pub open spec fn wf(self) -> bool {
        &&& self.slots > 0
        &&& self.max > 0
        &&& self.queue.len() <= self.slots
        &&& queued_bytes(self.queue) <= self.used <= self.max
    }
}

/// The state of a bounded queue.
#[derive(Debug)]
pub struct ByteBoundedChannel<T> {
    queue: VecDeque<Budgeted<T>>,
    slots: usize,
    budget: ByteBudget,
    senders: usize,
    receiving: bool,
}

impl<T> View for ByteBoundedChannel<T> {
    type V = ChannelModel<T>;

    closed spec fn view(&self) -> ChannelModel<T> {
        ChannelModel {
            queue: self.queue@,
            slots: self.slots as nat,
            used: self.budget.spec_used(),
            max: self.budget.spec_max(),
            senders: self.senders as nat,
            receiving: self.receiving,
        }
    }
}

/// Opens a queue with one sender and a receiver.
pub fn byte_bounded_channel<T>(max_slots: usize, max_bytes: usize) -> (result: Result<
    ByteBoundedChannel<T>,
    ChannelConfigError,
>)
    ensures
        match result {
            Ok(channel) => {
                &&& max_slots > 0
                &&& max_bytes > 0
                &&& channel.wf()
                &&& channel@ == ChannelModel::<T>::fresh(max_slots as nat, max_bytes as nat)
            },
            Err(ChannelConfigError::ZeroSlots) => max_slots == 0,
            Err(ChannelConfigError::ZeroBytes) => max_slots > 0 && max_bytes == 0,
        },
{
    if max_slots == 0 {
        return Err(ChannelConfigError::ZeroSlots);
    }
    if max_bytes == 0 {
        return Err(ChannelConfigError::ZeroBytes);
    }
    Ok(
        ByteBoundedChannel {
            queue: VecDeque::new(),
            slots: max_slots,
            budget: ByteBudget::new(max_bytes),
            senders: 1,
            receiving: true,
        },
    )
}

impl<T> ByteBoundedChannel<T> {
    pub open spec fn wf(self) -> bool {
        self@.wf() && self.budget_wf()
    }

    pub closed spec fn budget_wf(self) -> bool {
        self.budget.wf()
    }

    /// Puts an item in the queue, charged with `bytes`.
    pub fn try_send(&mut self, item: T, bytes: usize) -> (result: Result<(), TrySendError<T>>)
        requires
            old(self).wf(),
        ensures
            final(self).wf(),
            ({
                let m = old(self)@;
                match result {
                    Ok(()) => {
                        &&& bytes <= m.max && m.used + bytes <= m.max
                        &&& m.receiving && m.queue.len() < m.slots
                        &&& final(self)@.queue.len() == m.queue.len() + 1
                        &&& final(self)@.queue.last().spec_item() == item
                        &&& final(self)@.queue.last().spec_charge() == bytes
                        &&& final(self)@ == m.sent(final(self)@.queue.last())
                    },
                    Err(error) => {
                        &&& final(self)@ == m
                        &&& error == (if bytes > m.max {
                            TrySendError::TooLarge { item, bytes, max_bytes: m.max as usize }
                        } else if m.used + bytes > m.max {
                            TrySendError::ByteBudget {
                                item,
                                bytes,
                                available_bytes: (m.max - m.used) as usize,
                            }
                        } else if !m.receiving {
                            TrySendError::Disconnected(item)
                        } else {
                            TrySendError::Full(item)
                        })
                        &&& !(m.used + bytes <= m.max && m.receiving && m.queue.len() < m.slots)
                    },
                }
            }),
    {
        match self.budget.try_reserve(bytes) {
            Err(ReserveError::TooLarge) => {
                let stats = self.budget.stats();
                return Err(TrySendError::TooLarge { item, bytes, max_bytes: stats.max_bytes });
            },
            Err(ReserveError::Unavailable) => {
                let stats = self.budget.stats();
                return Err(
                    TrySendError::ByteBudget {
                        item,
                        bytes,
                        available_bytes: stats.max_bytes - stats.used_bytes,
                    },
                );
            },
            Ok(()) => {},
        }
        if !self.receiving {
            self.budget.release(bytes);
            return Err(TrySendError::Disconnected(item));
        }
        if self.queue.len() >= self.slots {
            self.budget.release(bytes);
            return Err(TrySendError::Full(item));
        }
        let budgeted = Budgeted { item, charged_bytes: bytes };
        proof {
            lemma_queued_push(self.queue@, budgeted);
        }
        self.queue.push_back(budgeted);
        proof {
            assert(self@.queue.drop_last() =~= old(self)@.queue);
        }
        Ok(())
    }

    /// Takes the oldest item out of the queue; it stays charged.
    pub fn try_recv(&mut self) -> (result: Result<Budgeted<T>, TryRecvError>)
        requires
            old(self).wf(),
        ensures
            final(self).wf(),
            match result {
                Ok(item) => {
                    &&& old(self)@.queue.len() > 0
                    &&& item == old(self)@.queue[0]
                    &&& final(self)@ == old(self)@.received()
                    &&& final(self)@.outstanding() == old(self)@.outstanding() + item.spec_charge()
                },
                Err(error) => {
                    &&& old(self)@.queue.len() == 0
                    &&& final(self)@ == old(self)@
                    &&& error == (if old(self)@.senders == 0 {
                        TryRecvError::Disconnected
                    } else {
                        TryRecvError::Empty
                    })
                },
            },
    {
        match self.queue.pop_front() {
            Some(item) => {
                proof {
                    assert(self@.queue =~= old(self)@.queue.skip(1));
                }
                Ok(item)
            },
            None => if self.senders == 0 {
                Err(TryRecvError::Disconnected)
            } else {
                Err(TryRecvError::Empty)
            },
        }
    }

    /// Takes the oldest item out of a queue on which there is nothing to wait for.
    pub fn recv(&mut self) -> (result: Result<Budgeted<T>, RecvError>)
        requires
            old(self).wf(),
            old(self)@.queue.len() > 0 || old(self)@.senders == 0,
        ensures
            final(self).wf(),
            match result {
                Ok(item) => {
                    &&& old(self)@.queue.len() > 0
                    &&& item == old(self)@.queue[0]
                    &&& final(self)@ == old(self)@.received()
                    &&& final(self)@.outstanding() == old(self)@.outstanding() + item.spec_charge()
                },
                Err(_) => old(self)@.queue.len() == 0 && final(self)@ == old(self)@,
            },
    {
        match self.try_recv() {
            Ok(item) => Ok(item),
            Err(_) => Err(RecvError),
        }
    }

    /// Takes the charge of an item back that left the queue.
    pub fn release<V>(&mut self, item: Budgeted<V>)
        requires
            old(self).wf(),
            item.spec_charge() <= old(self)@.outstanding(),
        ensures
            final(self).wf(),
            final(self)@ == old(self)@.given_back(item.spec_charge()),
    {
        self.budget.release(item.charged_bytes);
    }

    /// One more sender is connected.
    pub fn connect_sender(&mut self)
        requires
            old(self).wf(),
            old(self)@.senders < usize::MAX,
        ensures
            final(self).wf(),
            final(self)@ == old(self)@.with_senders(old(self)@.senders + 1),
    {
        self.senders = self.senders + 1;
    }

    /// One sender is gone.
    pub fn disconnect_sender(&mut self)
        requires
            old(self).wf(),
            old(self)@.senders > 0,
        ensures
            final(self).wf(),
            final(self)@ == old(self)@.with_senders((old(self)@.senders - 1) as nat),
    {
        self.senders = self.senders - 1;
    }

    /// The receiver is gone; what is queued is dropped and its charge taken back.
    pub fn disconnect_receiver(&mut self)
        requires
            old(self).wf(),
        ensures
            final(self).wf(),
            final(self)@ == old(self)@.closed(),
    {
        self.receiving = false;
        let ghost outstanding = old(self)@.outstanding();
        loop
            invariant
                self.wf(),
                self@ == (ChannelModel {
                    queue: self@.queue,
                    used: self@.used,
                    receiving: false,
                    ..old(self)@
                }),
                self@.outstanding() == outstanding,
            ensures
                self@.queue.len() == 0,
            decreases self@.queue.len(),
        {
            match self.queue.pop_front() {
                Some(item) => {
                    let ghost before = self@;
                    self.budget.release(item.charged_bytes);
                },
                None => {
                    break;
                },
            }
        }
        proof {
            assert(self@.queue =~= Seq::<Budgeted<T>>::empty());
        }
    }

    #[must_use]
    pub fn stats(&self) -> (stats: ChannelStats)
        requires
            self.wf(),
        ensures
            stats.used_bytes == self@.used,
            stats.max_bytes == self@.max,
    {
        self.budget.stats()
    }
}

impl<T> ChannelModel<T> {
    /// A send and the release of what was sent cancel out: afterwards the same
    /// bytes are charged and the same items are queued.
    pub proof fn send_then_release_restores(self, item: Budgeted<T>)
        requires
            self.wf(),
            self.queue.len() == 0,
            self.used + item.spec_charge() <= self.max,
        ensures
            ({
                let sent = self.sent(item);
                sent.queue[0] == item && sent.received().given_back(item.spec_charge()) == self
            }),
    {
        assert(self.queue.push(item).skip(1) =~= self.queue);
    }
}

/// Something that changes a channel or what its receivers hold.
pub ghost enum ChannelEvent<T> {
    /// An item was sent.
    Sent(Budgeted<T>),
    /// The oldest item was received, and is held.
    Received,
    /// A held item was released, taken out, dropped, or failed to be mapped.
    GivenBack(int),
    /// Senders came or left.
    Senders(nat),
    /// The receiver left.
    Closed,
}

/// A channel together with the charges of the items that its receivers hold.
pub ghost struct ChannelRun<T> {
    pub channel: ChannelModel<T>,
    pub held: Seq<nat>,
}

/// The sum of charges.
pub open spec fn total_charge(charges: Seq<nat>) -> nat
    decreases charges.len(),
{
    if charges.len() == 0 {
        0
    } else {
        charges[0] + total_charge(charges.skip(1))
    }
}

proof fn lemma_total_push(charges: Seq<nat>, charge: nat)
    ensures
        total_charge(charges.push(charge)) == total_charge(charges) + charge,
    decreases charges.len(),
{
    if charges.len() == 0 {
        assert(charges.push(charge).skip(1) =~= Seq::<nat>::empty());
        assert(total_charge(charges.push(charge).skip(1)) == 0);
    } else {
        assert(charges.push(charge).skip(1) =~= charges.skip(1).push(charge));
        lemma_total_push(charges.skip(1), charge);
    }
}

proof fn lemma_total_remove(charges: Seq<nat>, index: int)
    requires
        0 <= index < charges.len(),
    ensures
        total_charge(charges) == total_charge(charges.remove(index)) + charges[index],
    decreases charges.len(),
{
    if index == 0 {
        assert(charges.remove(0) =~= charges.skip(1));
    } else {
        assert(charges.remove(index).skip(1) =~= charges.skip(1).remove(index - 1));
        lemma_total_remove(charges.skip(1), index - 1);
    }
}

impl<T> ChannelRun<T> {
    /// The run after an event, where it can happen.
    pub open spec fn after(self, event: ChannelEvent<T>) -> Option<ChannelRun<T>> {
        let m = self.channel;
        match event {
            ChannelEvent::Sent(item) => if m.used + item.spec_charge() <= m.max && m.receiving
                && m.queue.len() < m.slots {
                Some(ChannelRun { channel: m.sent(item), ..self })
            } else {
                None
            },
            ChannelEvent::Received => if m.queue.len() > 0 {
                Some(
                    ChannelRun {
                        channel: m.received(),
                        held: self.held.push(m.queue[0].spec_charge()),
                    },
                )
            } else {
                None
            },
            ChannelEvent::GivenBack(index) => if 0 <= index < self.held.len() {
                Some(
                    ChannelRun {
                        channel: m.given_back(self.held[index]),
                        held: self.held.remove(index),
                    },
                )
            } else {
                None
            },
            ChannelEvent::Senders(senders) => Some(
                ChannelRun { channel: m.with_senders(senders), ..self },
            ),
            ChannelEvent::Closed => Some(ChannelRun { channel: m.closed(), ..self }),
        }
    }

    /// The run after events, where all of them can happen.
    pub open spec fn after_all(self, events: Seq<ChannelEvent<T>>) -> Option<ChannelRun<T>>
        decreases events.len(),
    {
        if events.len() == 0 {
            Some(self)
        } else {
            match self.after_all(events.drop_last()) {
                Some(run) => run.after(events.last()),
                None => None,
            }
        }
    }
}

/// Whatever happens to a channel, the bytes that it has charged are exactly those
/// of the items that are queued or held, never more than the limit, and none once
/// no item is left.
pub proof fn charges_are_those_of_live_items<T>(slots: nat, max: nat, events: Seq<ChannelEvent<T>>)
    requires
        slots > 0,
        max > 0,
    ensures
        (ChannelRun::<T> { channel: ChannelModel::fresh(slots, max), held: Seq::empty() }).after_all(
            events,
        ) matches Some(run) ==> {
            &&& run.channel.wf()
            &&& run.channel.max == max
            &&& run.channel.used == queued_bytes(run.channel.queue) + total_charge(run.held)
            &&& run.channel.used <= max
            &&& run.channel.outstanding() == total_charge(run.held)
            &&& run.channel.queue.len() == 0 && run.held.len() == 0 ==> run.channel.used == 0
        },
    decreases events.len(),
{
    let start = ChannelRun::<T> { channel: ChannelModel::fresh(slots, max), held: Seq::empty() };
    if events.len() > 0 {
        charges_are_those_of_live_items(slots, max, events.drop_last());
        if let Some(run) = start.after_all(events.drop_last()) {
            match events.last() {
                ChannelEvent::Sent(item) => {
                    lemma_queued_push(run.channel.queue, item);
                },
                ChannelEvent::Received => {
                    if run.channel.queue.len() > 0 {
                        lemma_total_push(run.held, run.channel.queue[0].spec_charge());
                    }
                },
                ChannelEvent::GivenBack(index) => {
                    if 0 <= index < run.held.len() {
                        lemma_total_remove(run.held, index);
                    }
                },
                _ => {},
            }
        }
    }
}

} // verus!
