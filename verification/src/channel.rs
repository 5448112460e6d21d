//! The bounded sample queue between the capture side and the analyzer.

use ringbuf::{Consumer, Producer, RingBuffer};
use vstd::prelude::*;

verus! {

/// One audio sample, carried as the 32-bit word of its single-precision
/// encoding. The queue never looks inside the word.
pub type Sample = u32;

/// The writing half of a `ringbuf` ring.
#[verifier::external_type_specification]
#[verifier::external_body]
#[verifier::reject_recursive_types(T)]
pub struct ExProducer<T>(Producer<T>);

/// The reading half of a `ringbuf` ring.
#[verifier::external_type_specification]
#[verifier::external_body]
#[verifier::reject_recursive_types(T)]
pub struct ExConsumer<T>(Consumer<T>);

/// The samples waiting in the ring that `consumer` reads, oldest first.
pub uninterp spec fn ring_contents(consumer: Consumer<u32>) -> Seq<u32>;

/// The capacity that the ring read by `consumer` was created with.
pub uninterp spec fn ring_capacity(consumer: Consumer<u32>) -> nat;

/// A bounded first-in first-out queue of samples.
///
/// The channel owns both halves of one ring: `new` is the only way to make
/// one, and neither half ever leaves it. So nothing else can reach the ring,
/// and what the reading half sees changes through the channel's own methods
/// only. To share a channel between threads, put the whole of it behind a
/// lock; a side that must not wait for the lock can queue in a channel of
/// its own and `drain_into` the shared one whenever the lock is free.
pub struct SampleChannel {
    producer: Producer<u32>,
    consumer: Consumer<u32>,
}

/// `RingBuffer::new` followed by `RingBuffer::split`: the two halves of an
/// empty ring of the given capacity. The ring allocates `capacity + 1`
/// slots of four bytes; the bound keeps that under the size at which `Vec`
/// panics.
#[verifier::external_body]
fn ring_new(capacity: usize) -> (channel: SampleChannel)
    requires
        capacity < usize::MAX / 8,
    ensures
        ring_contents(channel.consumer) == Seq::<u32>::empty(),
        ring_capacity(channel.consumer) == capacity,
{
    let (producer, consumer) = RingBuffer::<u32>::new(capacity).split();
    SampleChannel { producer, consumer }
}

/// `Producer::push` on the channel's writing half: appends the sample
/// behind the newest one when the ring holds fewer samples than its
/// capacity, and otherwise leaves the ring as it was. The answer tells which
/// of the two happened. The writing half feeds the ring that the reading
/// half reads, so the contract speaks of what the reading half sees.
#[verifier::external_body]
fn ring_push(channel: &mut SampleChannel, sample: Sample) -> (accepted: bool)
    ensures
        accepted == (ring_contents(old(channel).consumer).len() < ring_capacity(
            old(channel).consumer,
        )),
        ring_contents(final(channel).consumer) == if accepted {
            ring_contents(old(channel).consumer).push(sample)
        } else {
            ring_contents(old(channel).consumer)
        },
        ring_capacity(final(channel).consumer) == ring_capacity(old(channel).consumer),
{
    channel.producer.push(sample).is_ok()
}

/// `Consumer::pop` on the channel's reading half: removes the oldest sample
/// and returns it, or returns `None` and changes nothing when the ring is
/// empty.
#[verifier::external_body]
fn ring_pop(channel: &mut SampleChannel) -> (oldest: Option<Sample>)
    ensures
        oldest == if ring_contents(old(channel).consumer).len() == 0 {
            None
        } else {
            Some(ring_contents(old(channel).consumer).first())
        },
        ring_contents(final(channel).consumer) == if ring_contents(
            old(channel).consumer,
        ).len() == 0 {
            ring_contents(old(channel).consumer)
        } else {
            ring_contents(old(channel).consumer).drop_first()
        },
        ring_capacity(final(channel).consumer) == ring_capacity(old(channel).consumer),
{
    channel.consumer.pop()
}

/// `Consumer::len` on the channel's reading half: the number of samples
/// waiting in the ring, which never exceeds the capacity.
#[verifier::external_body]
fn ring_len(channel: &SampleChannel) -> (count: usize)
    ensures
        count == ring_contents(channel.consumer).len(),
        count <= ring_capacity(channel.consumer),
{
    channel.consumer.len()
}

/// `Consumer::capacity` on the channel's reading half: the capacity the
/// ring was created with.
#[verifier::external_body]
fn ring_room(channel: &SampleChannel) -> (capacity: usize)
    ensures
        capacity == ring_capacity(channel.consumer),
{
    channel.consumer.capacity()
}

impl View for SampleChannel {
    type V = Seq<Sample>;

    /// The waiting samples, oldest first.
    closed spec fn view(&self) -> Seq<Sample> {
        ring_contents(self.consumer)
    }
}

impl SampleChannel {
    /// The most samples the channel holds at once.
    pub closed spec fn capacity_spec(&self) -> nat {
        ring_capacity(self.consumer)
    }

    /// An empty channel that holds up to `capacity` samples.
    pub fn new(capacity: usize) -> (channel: SampleChannel)
        requires
            capacity < usize::MAX / 8,
        ensures
            channel@ == Seq::<Sample>::empty(),
            channel.capacity_spec() == capacity,
    {
        ring_new(capacity)
    }

    /// The most samples the channel holds at once.
    pub fn capacity(&self) -> (capacity: usize)
        ensures
            capacity == self.capacity_spec(),
    {
        ring_room(self)
    }

    /// The number of waiting samples.
    pub fn len(&self) -> (count: usize)
        ensures
            count == self@.len(),
            count <= self.capacity_spec(),
    {
        ring_len(self)
    }

    /// Queues one sample behind the waiting ones. A full channel drops the
    /// sample instead and stays as it was; the answer is `false` then.
    pub fn push(&mut self, sample: Sample) -> (accepted: bool)
        ensures
            accepted == (old(self)@.len() < old(self).capacity_spec()),
            accepted ==> final(self)@ == old(self)@.push(sample),
            !accepted ==> final(self)@ == old(self)@,
            final(self).capacity_spec() == old(self).capacity_spec(),
    {
        ring_push(self, sample)
    }

    /// Removes the oldest `count` samples, or all of them when fewer are
    /// waiting, and returns them oldest first.
    pub fn pop_batch(&mut self, count: usize) -> (batch: Vec<Sample>)
        ensures
            batch@.len() == if count <= old(self)@.len() {
                count as nat
            } else {
                old(self)@.len()
            },
            batch@ == old(self)@.take(batch@.len() as int),
            final(self)@ == old(self)@.skip(batch@.len() as int),
            final(self).capacity_spec() == old(self).capacity_spec(),
    {
        let mut batch: Vec<Sample> = Vec::new();
        let mut taken: usize = 0;
        while taken < count
            invariant
                taken <= count,
                taken <= old(self)@.len(),
                batch@.len() == taken,
                batch@ == old(self)@.take(taken as int),
                self@ == old(self)@.skip(taken as int),
                self.capacity_spec() == old(self).capacity_spec(),
            ensures
                taken == count || taken == old(self)@.len(),
            decreases count - taken,
        {
            match ring_pop(self) {
                Some(sample) => {
                    batch.push(sample);
                    taken = taken + 1;
                },
                None => {
                    break ;
                },
            }
        }
        batch
    }

    /// Moves the oldest samples of this channel to the back of `other`, in
    /// order, until this channel is empty or `other` is full. Nothing is
    /// dropped: what does not fit stays here. Returns the number moved.
    pub fn drain_into(&mut self, other: &mut SampleChannel) -> (moved: usize)
        ensures
            moved == if old(self)@.len() <= old(other).capacity_spec() - old(other)@.len() {
                old(self)@.len() as int
            } else {
                old(other).capacity_spec() - old(other)@.len()
            },
            final(other)@ == old(other)@ + old(self)@.take(moved as int),
            final(self)@ == old(self)@.skip(moved as int),
            final(self).capacity_spec() == old(self).capacity_spec(),
            final(other).capacity_spec() == old(other).capacity_spec(),
    {
        let waiting = ring_len(self);
        let room = ring_room(other) - ring_len(other);
        let count = if waiting <= room {
            waiting
        } else {
            room
        };
        let mut moved: usize = 0;
        assert(old(self)@.take(0) =~= Seq::<Sample>::empty());
        assert(old(other)@ + Seq::<Sample>::empty() =~= old(other)@);
        assert(old(self)@.skip(0) =~= old(self)@);
        while moved < count
            invariant
                moved <= count,
                count <= old(self)@.len(),
                count <= old(other).capacity_spec() - old(other)@.len(),
                self@ == old(self)@.skip(moved as int),
                other@ == old(other)@ + old(self)@.take(moved as int),
                self.capacity_spec() == old(self).capacity_spec(),
                other.capacity_spec() == old(other).capacity_spec(),
            decreases count - moved,
        {
            match ring_pop(self) {
                Some(sample) => {
                    let accepted = ring_push(other, sample);
                    assert(accepted);
                    assert(old(self)@.take(moved + 1) =~= old(self)@.take(moved as int).push(
                        sample,
                    ));
                    assert(other@ =~= old(other)@ + old(self)@.take(moved + 1));
                    assert(self@ =~= old(self)@.skip(moved + 1));
                },
                None => {},
            }
            moved = moved + 1;
        }
        moved
    }
}

} // verus!
