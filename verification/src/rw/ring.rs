//! The bounded histories kept by the reader and the writers.
//!
//! Both are `ringbuffer::AllocRingBuffer`s. Verus cannot look inside that
//! type, so what a buffer holds is given a name here and the three methods
//! the library calls are wrapped. Nothing in this file is proved: each
//! contract restates what the `ringbuffer` source does.
use ringbuffer::AllocRingBuffer;
use ringbuffer::RingBuffer;
use vstd::prelude::*;

verus! {

/// `ringbuffer::AllocRingBuffer`, a type that Verus carries through without
/// looking inside.
#[verifier::external_type_specification]
#[verifier::external_body]
#[verifier::reject_recursive_types(T)]
pub struct ExAllocRingBuffer<T>(AllocRingBuffer<T>);

/// The bytes held by a ring buffer, oldest first.
pub uninterp spec fn ring_bytes(ring: AllocRingBuffer<u8>) -> Seq<u8>;

/// The capacity a byte ring buffer was created with.
pub uninterp spec fn ring_bytes_limit(ring: AllocRingBuffer<u8>) -> nat;

/// How many bytes were ever pushed into a ring buffer.
pub uninterp spec fn ring_bytes_pushed(ring: AllocRingBuffer<u8>) -> nat;

/// The chars held by a ring buffer, oldest first.
pub uninterp spec fn ring_chars(ring: AllocRingBuffer<char>) -> Seq<char>;

/// The capacity a char ring buffer was created with.
pub uninterp spec fn ring_chars_limit(ring: AllocRingBuffer<char>) -> nat;

/// How many chars were ever pushed into a ring buffer.
pub uninterp spec fn ring_chars_pushed(ring: AllocRingBuffer<char>) -> nat;

/// What a full-or-not buffer holds after one more item is pushed: the oldest
/// item leaves when the buffer is already at its limit.
pub open spec fn ring_after_push<T>(held: Seq<T>, limit: nat, item: T) -> Seq<T> {
    if held.len() == limit {
        held.drop_first().push(item)
    } else {
        held.push(item)
    }
}

/// `AllocRingBuffer::new`: an empty buffer of the given capacity. The call
/// panics on a capacity of zero, which `requires` excludes.
#[verifier::external_body]
pub(crate) fn byte_ring_new(capacity: usize) -> (ring: AllocRingBuffer<u8>)
    requires
        0 < capacity <= 0x1_0000,
    ensures
        ring_bytes(ring) == Seq::<u8>::empty(),
        ring_bytes_limit(ring) == capacity,
        ring_bytes_pushed(ring) == 0,
{
    AllocRingBuffer::new(capacity)
}

/// `RingBuffer::push`: appends the byte, dropping the oldest one when the
/// buffer is full. The buffer counts its pushes in a `usize`, so the count
/// must have room for one more.
#[verifier::external_body]
pub(crate) fn byte_ring_push(ring: &mut AllocRingBuffer<u8>, byte: u8)
    requires
        ring_bytes_pushed(*old(ring)) < usize::MAX,
    ensures
        ring_bytes(*final(ring)) == ring_after_push(
            ring_bytes(*old(ring)),
            ring_bytes_limit(*old(ring)),
            byte,
        ),
        ring_bytes_limit(*final(ring)) == ring_bytes_limit(*old(ring)),
        ring_bytes_pushed(*final(ring)) == ring_bytes_pushed(*old(ring)) + 1,
{
    ring.push(byte);
}

/// `RingBuffer::to_vec`: a copy of the held bytes, oldest first.
#[verifier::external_body]
pub(crate) fn byte_ring_to_vec(ring: &AllocRingBuffer<u8>) -> (bytes: Vec<u8>)
    ensures
        bytes@ == ring_bytes(*ring),
{
    ring.to_vec()
}

/// `AllocRingBuffer::new`: an empty buffer of the given capacity. The call
/// panics on a capacity of zero, which `requires` excludes.
#[verifier::external_body]
pub(crate) fn char_ring_new(capacity: usize) -> (ring: AllocRingBuffer<char>)
    requires
        0 < capacity <= 0x1_0000,
    ensures
        ring_chars(ring) == Seq::<char>::empty(),
        ring_chars_limit(ring) == capacity,
        ring_chars_pushed(ring) == 0,
{
    AllocRingBuffer::new(capacity)
}

/// `RingBuffer::push`: appends the char, dropping the oldest one when the
/// buffer is full. The buffer counts its pushes in a `usize`, so the count
/// must have room for one more.
#[verifier::external_body]
pub(crate) fn char_ring_push(ring: &mut AllocRingBuffer<char>, item: char)
    requires
        ring_chars_pushed(*old(ring)) < usize::MAX,
    ensures
        ring_chars(*final(ring)) == ring_after_push(
            ring_chars(*old(ring)),
            ring_chars_limit(*old(ring)),
            item,
        ),
        ring_chars_limit(*final(ring)) == ring_chars_limit(*old(ring)),
        ring_chars_pushed(*final(ring)) == ring_chars_pushed(*old(ring)) + 1,
{
    ring.push(item);
}

/// `RingBuffer::to_vec`: a copy of the held chars, oldest first.
#[verifier::external_body]
pub(crate) fn char_ring_to_vec(ring: &AllocRingBuffer<char>) -> (chars: Vec<char>)
    ensures
        chars@ == ring_chars(*ring),
{
    ring.to_vec()
}

} // verus!
