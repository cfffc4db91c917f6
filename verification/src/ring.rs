//! The sample ring between the audio thread and the scope, as each of its
//! two ends knows it.
//!
//! The ring is a lock-free queue with one producer and one consumer. Either
//! end keeps its own copy of the read and write positions. The samples in
//! the slots between the two are what that end knows the ring to hold; the
//! other end can only take from the front of what the producer knows of,
//! and add at the back of what the consumer knows of.
use vstd::prelude::*;

verus! {

/// How many samples the ring holds: eight seconds at 8 kHz.
pub const RING_CAPACITY: usize = 64000;

/// `rtrb::Producer`, the writing end of a ring. Nothing inside it is
/// visible here.
#[verifier::external_type_specification]
#[verifier::external_body]
#[verifier::reject_recursive_types(T)]
pub struct ExProducer<T>(rtrb::Producer<T>);

/// `rtrb::Consumer`, the reading end of a ring. Nothing inside it is
/// visible here.
#[verifier::external_type_specification]
#[verifier::external_body]
#[verifier::reject_recursive_types(T)]
pub struct ExConsumer<T>(rtrb::Consumer<T>);

/// The samples that the producer has pushed and has not yet seen taken,
/// oldest first: what stands in the slots from the read position it has
/// cached up to its write position.
pub uninterp spec fn unread(producer: rtrb::Producer<u8>) -> Seq<u8>;

/// How many slots the ring of this producer was made with.
pub uninterp spec fn ring_size(producer: rtrb::Producer<u8>) -> nat;

/// The samples that the consumer knows to have arrived and has not yet
/// taken, oldest first: what stands in the slots from its read position up
/// to the write position it has cached.
pub uninterp spec fn arrived(consumer: rtrb::Consumer<u8>) -> Seq<u8>;

/// How many slots the producer knows to be free.
pub open spec fn known_free(producer: rtrb::Producer<u8>) -> nat {
    if unread(producer).len() <= ring_size(producer) {
        (ring_size(producer) - unread(producer).len()) as nat
    } else {
        0
    }
}

/// `whole` ends with `end`.
pub open spec fn ends_with(whole: Seq<u8>, end: Seq<u8>) -> bool {
    end.len() <= whole.len() && whole.skip(whole.len() - end.len()) == end
}

/// `whole` starts with `start`.
pub open spec fn starts_with(whole: Seq<u8>, start: Seq<u8>) -> bool {
    start.len() <= whole.len() && whole.take(start.len() as int) == start
}

/// `rtrb::Producer::is_full`. A producer that knows of a free slot answers
/// `false` and learns nothing. One that knows of none looks at the read
/// position again, which can only have moved on: samples taken meanwhile
/// leave the front of what it holds unread. It answers `true` only if
/// there is still no free slot.
#[verifier::external_body]
pub(crate) fn ring_is_full(producer: &mut rtrb::Producer<u8>) -> (full: bool)
    ensures
        ring_size(*final(producer)) == ring_size(*old(producer)),
        unread(*final(producer)).len() <= ring_size(*final(producer)),
        ends_with(unread(*old(producer)), unread(*final(producer))),
        unread(*old(producer)).len() < ring_size(*old(producer)) ==> unread(*final(producer))
            == unread(*old(producer)),
        full == (unread(*final(producer)).len() == ring_size(*final(producer))),
{
    producer.is_full()
}

/// `rtrb::Producer::push`, with the rejected value dropped. It looks for a
/// free slot as `is_full` does. Into a free slot the value goes, behind
/// what is unread; a value that finds none changes nothing. A push into a
/// slot known to be free beforehand always succeeds.
#[verifier::external_body]
pub(crate) fn ring_push(producer: &mut rtrb::Producer<u8>, value: u8) -> (pushed: bool)
    ensures
        ring_size(*final(producer)) == ring_size(*old(producer)),
        unread(*final(producer)).len() <= ring_size(*final(producer)),
        pushed ==> unread(*final(producer)).len() >= 1 && unread(*final(producer)).last() == value
            && ends_with(unread(*old(producer)), unread(*final(producer)).drop_last()),
        unread(*old(producer)).len() < ring_size(*old(producer)) ==> pushed && unread(
            *final(producer),
        ) == unread(*old(producer)).push(value),
        !pushed ==> unread(*final(producer)) == unread(*old(producer)) && unread(
            *final(producer),
        ).len() == ring_size(*final(producer)),
{
    producer.push(value).is_ok()
}

/// `rtrb::Consumer::slots`: how many samples wait to be read. The consumer
/// looks at the write position again, which can only have moved on: what
/// it knew to have arrived is still there, and more may stand behind it.
#[verifier::external_body]
pub(crate) fn ring_waiting(consumer: &mut rtrb::Consumer<u8>) -> (n: usize)
    ensures
        n == arrived(*final(consumer)).len(),
        starts_with(arrived(*final(consumer)), arrived(*old(consumer))),
{
    consumer.slots()
}

/// `rtrb::Consumer::pop`, as an option. A consumer that knows of a sample
/// takes the oldest. One that knows of none looks at the write position
/// again and takes the oldest of what has arrived, if anything has.
#[verifier::external_body]
pub(crate) fn ring_pop(consumer: &mut rtrb::Consumer<u8>) -> (sample: Option<u8>)
    ensures
        arrived(*old(consumer)).len() > 0 ==> sample == Some(arrived(*old(consumer))[0])
            && arrived(*final(consumer)) == arrived(*old(consumer)).drop_first(),
        match sample {
            Some(value) => starts_with(
                seq![value] + arrived(*final(consumer)),
                arrived(*old(consumer)),
            ),
            None => arrived(*old(consumer)).len() == 0 && arrived(*final(consumer)).len() == 0,
        },
{
    consumer.pop().ok()
}

/// What ends with a sequence ends with every end of that sequence.
pub proof fn lemma_ends_with_end(whole: Seq<u8>, middle: Seq<u8>, end: Seq<u8>)
    requires
        ends_with(whole, middle),
        ends_with(middle, end),
    ensures
        ends_with(whole, end),
{
    assert(whole.skip(whole.len() - end.len()) =~= end) by {
        assert forall|i: int| 0 <= i < end.len() implies whole[whole.len() - end.len() + i]
            == end[i] by {
            let m = middle.len() - end.len() + i;
            assert(middle.skip(middle.len() - end.len())[i] == middle[m]);
            assert(whole.skip(whole.len() - middle.len())[m] == whole[whole.len() - middle.len() + m]);
        }
    }
}

/// Pushing the same value onto a sequence and onto an end of it leaves an
/// end.
pub proof fn lemma_ends_with_push(whole: Seq<u8>, end: Seq<u8>, value: u8)
    requires
        ends_with(whole, end),
    ensures
        ends_with(whole.push(value), end.push(value)),
{
    let longer = whole.push(value);
    let target = end.push(value);
    assert(longer.skip(longer.len() - target.len()) =~= target) by {
        assert forall|i: int| 0 <= i < target.len() implies longer[longer.len() - target.len() + i]
            == target[i] by {
            if i < end.len() {
                assert(whole.skip(whole.len() - end.len())[i] == whole[whole.len() - end.len() + i]);
            }
        }
    }
}

} // verus!
