//! A writer that appends bytes to a byte vector.
use super::ring::{
    byte_ring_new, byte_ring_push, byte_ring_to_vec, ring_bytes, ring_bytes_limit,
    ring_bytes_pushed,
};
use super::{error::Error, writer::Writer};
use super::{lemma_recent_push, recent, HISTORY_LIMIT};
use ringbuffer::AllocRingBuffer;
use vstd::prelude::*;
use vstd::utf8::encode_utf8;

verus! {

/// A writer whose output is a vector of bytes.
///
/// The vector may hold bytes already; the writer appends to them and counts
/// and remembers only what it appended.
pub struct ByteWriter {
    /// The output: what it held at first, then everything written.
    writer: Vec<u8>,
    /// How many bytes the output held when the writer was created.
    kept: Ghost<nat>,
    /// Number of bytes written to the output.
    output_byte_counter: u64,
    /// The last byte written to the output.
    last_byte: Option<u8>,
    /// The latest bytes written to the output.
    captured_bytes: AllocRingBuffer<u8>,
}

impl ByteWriter {
    /// The whole output: what it held at first, then everything written.
    pub closed spec fn output(&self) -> Seq<u8> {
        self.writer@
    }

    /// The last byte written, if any was.
    pub open spec fn latest(&self) -> Option<u8> {
        if self.emitted().len() == 0 {
            None
        } else {
            Some(self.emitted().last())
        }
    }

    /// A writer that appends to the given output.
    pub fn new(writer: Vec<u8>) -> (byte_writer: Self)
        ensures
            byte_writer.wf(),
            byte_writer.infallible(),
            byte_writer.output() == writer@,
            byte_writer.preserved() == writer@,
            byte_writer.emitted() == Seq::<u8>::empty(),
            byte_writer.position() == 0,
    {
        let ghost kept = writer@.len();
        let byte_writer = Self {
            writer,
            kept: Ghost(kept),
            output_byte_counter: 0,
            last_byte: None,
            captured_bytes: byte_ring_new(HISTORY_LIMIT),
        };
        assert(byte_writer.emitted() =~= Seq::<u8>::empty());
        byte_writer
    }

    /// Hands the output back.
    pub fn into_inner(self) -> (writer: Vec<u8>)
        requires
            self.wf(),
        ensures
            writer@ == self.output(),
            writer@ == self.preserved() + self.emitted(),
    {
        self.writer
    }

    /// Returns the number of bytes that have been written to the output.
    pub fn output_byte_counter(&self) -> (count: u64)
        requires
            self.wf(),
        ensures
            count == self.position(),
    {
        self.output_byte_counter
    }

    /// Returns a copy of the latest bytes that have been written to the
    /// output.
    pub fn captured_bytes(&self) -> (bytes: Vec<u8>)
        requires
            self.wf(),
        ensures
            bytes@ == self.history(),
    {
        byte_ring_to_vec(&self.captured_bytes)
    }

    /// Returns the last byte that was written to the output.
    pub fn last_byte(&self) -> (byte: Option<u8>)
        requires
            self.wf(),
        ensures
            byte == self.latest(),
    {
        self.last_byte
    }
}

impl Writer for ByteWriter {
    closed spec fn wf(&self) -> bool {
        &&& self.kept@ <= self.writer@.len()
        &&& self.output_byte_counter == self.writer@.len() - self.kept@
        &&& self.last_byte == self.latest()
        &&& ring_bytes(self.captured_bytes) == self.history()
        &&& ring_bytes_limit(self.captured_bytes) == HISTORY_LIMIT
        &&& ring_bytes_pushed(self.captured_bytes) == self.writer@.len() - self.kept@
    }

    closed spec fn preserved(&self) -> Seq<u8> {
        self.writer@.take(self.kept@ as int)
    }

    closed spec fn emitted(&self) -> Seq<u8> {
        self.writer@.skip(self.kept@ as int)
    }

    open spec fn position(&self) -> nat {
        self.emitted().len()
    }

    open spec fn history(&self) -> Seq<u8> {
        recent(self.emitted(), HISTORY_LIMIT as nat)
    }

    open spec fn infallible(&self) -> bool {
        true
    }

    /// Appends the byte, whatever it is.
    fn write_byte(&mut self, byte: u8) -> (result: Result<(), Error>)
        ensures
            result is Ok,
            final(self).emitted() == old(self).emitted().push(byte),
    {
        proof {
            lemma_recent_push(self.emitted(), HISTORY_LIMIT as nat, byte);
        }
        self.writer.push(byte);
        // The output's length fits a `usize`, so the counter has room
        let _ = self.writer.len();
        assert(self.writer@.skip(self.kept@ as int) =~= old(self).writer@.skip(
            self.kept@ as int,
        ).push(byte));
        assert(self.writer@.take(self.kept@ as int) =~= old(self).writer@.take(
            self.kept@ as int,
        ));
        self.output_byte_counter = self.output_byte_counter + 1;
        self.last_byte = Some(byte);
        byte_ring_push(&mut self.captured_bytes, byte);
        Ok(())
    }

    /// Appends the bytes of the string's UTF-8 encoding.
    fn write_str(&mut self, value: &str) -> (result: Result<(), Error>)
        ensures
            result is Ok,
    {
        let bytes = value.as_bytes();
        let mut index: usize = 0;
        while index < bytes.len()
            invariant
                self.wf(),
                index <= bytes@.len(),
                bytes@ == encode_utf8(value@),
                self.emitted() == old(self).emitted() + bytes@.take(index as int),
                self.preserved() == old(self).preserved(),
            decreases bytes@.len() - index,
        {
            let _ = self.write_byte(bytes[index]);
            index = index + 1;
        }
        Ok(())
    }

    fn output_byte_counter(&self) -> (count: u64) {
        self.output_byte_counter
    }

    fn captured_bytes(&self) -> (bytes: Vec<u8>) {
        byte_ring_to_vec(&self.captured_bytes)
    }
}

} // verus!
