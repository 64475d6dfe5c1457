//! This module contains the `Writer` trait.
use super::error::Error;
use vstd::prelude::*;
use vstd::utf8::encode_utf8;

verus! {

/// An output that takes single bytes and strings, counts what it was given
/// and remembers the latest of it.
///
/// What an implementation has written is described as bytes: text counts as
/// its UTF-8 encoding. An implementation says what it holds by defining the
/// spec functions below, and Verus then holds its four methods to the
/// contracts given here. An implementation written where Verus does not see
/// it leaves the spec functions undefined; what the generator promises of
/// its output then rests on that implementation keeping these contracts.
pub trait Writer {
    /// The writer's fields agree with each other.
    open spec fn wf(&self) -> bool {
        arbitrary()
    }

    /// What the output held before anything was written through this
    /// writer.
    open spec fn preserved(&self) -> Seq<u8> {
        arbitrary()
    }

    /// Everything written through this writer, in order.
    open spec fn emitted(&self) -> Seq<u8> {
        arbitrary()
    }

    /// The value of the output counter.
    open spec fn position(&self) -> nat {
        arbitrary()
    }

    /// The latest of what was written, as `captured_bytes` returns it.
    open spec fn history(&self) -> Seq<u8> {
        arbitrary()
    }

    /// Whether writing to the underlying output always succeeds.
    open spec fn infallible(&self) -> bool {
        arbitrary()
    }

    /// It writes one byte to the output.
    ///
    /// An ASCII byte is written as it is. What becomes of another byte is
    /// for the implementation to say.
    fn write_byte(&mut self, byte: u8) -> (result: Result<(), Error>)
        requires
            old(self).wf(),
        ensures
            final(self).wf(),
            final(self).infallible() == old(self).infallible(),
            final(self).preserved() == old(self).preserved(),
            old(self).infallible() ==> result is Ok,
            result is Ok ==> final(self).position() == old(self).position() + 1,
            result is Ok && byte < 0x80 ==> final(self).emitted() == old(self).emitted().push(
                byte,
            ),
    ;

    /// It writes a string to the output.
    fn write_str(&mut self, value: &str) -> (result: Result<(), Error>)
        requires
            old(self).wf(),
        ensures
            final(self).wf(),
            final(self).infallible() == old(self).infallible(),
            final(self).preserved() == old(self).preserved(),
            old(self).infallible() ==> result is Ok,
            result is Ok ==> final(self).position() == old(self).position() + encode_utf8(
                value@,
            ).len(),
            result is Ok ==> final(self).emitted() == old(self).emitted() + encode_utf8(value@),
    ;

    /// It returns the number of bytes that have been written to the output.
    fn output_byte_counter(&self) -> (count: u64)
        requires
            self.wf(),
        ensures
            count == self.position(),
    ;

    /// It returns a copy of the latest bytes that have been written to the
    /// output.
    fn captured_bytes(&self) -> (bytes: Vec<u8>)
        requires
            self.wf(),
        ensures
            bytes@ == self.history(),
    ;
}

} // verus!
