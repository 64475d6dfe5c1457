//! A reader that hands out the bytes of an input one at a time.
use super::recent;
use super::ring::{
    byte_ring_new, byte_ring_push, byte_ring_to_vec, ring_bytes, ring_bytes_limit,
    ring_bytes_pushed,
};
use super::{lemma_recent_push, HISTORY_LIMIT};
use ringbuffer::AllocRingBuffer;
use vstd::prelude::*;

verus! {

/// The input has no more bytes.
#[derive(Debug, Clone, Copy, PartialEq, Eq, Structural)]
pub struct EndOfInput;

/// A reader over a byte slice.
///
/// Besides reading it can peek one byte ahead. It counts the bytes it has
/// handed out and remembers the latest of them; a byte that was only peeked
/// is neither counted nor remembered until it is read.
pub struct ByteReader<'a> {
    /// The whole input.
    reader: &'a [u8],
    /// Index of the next byte that `read_byte` hands out.
    offset: usize,
    /// Number of bytes read from the input.
    input_byte_counter: u64,
    /// The byte seen by a peek and not yet handed out by a read.
    peeked_byte: Option<u8>,
    /// The last byte read from the input.
    last_byte: Option<u8>,
    /// The latest bytes read from the input.
    captured_bytes: AllocRingBuffer<u8>,
}

impl<'a> ByteReader<'a> {
    /// The whole input the reader was created over.
    pub closed spec fn input(&self) -> Seq<u8> {
        self.reader@
    }

    /// How many bytes `read_byte` has handed out. A byte that was only
    /// peeked does not count.
    pub closed spec fn consumed(&self) -> nat {
        self.offset as nat
    }

    /// Whether a byte has been peeked and not read yet.
    pub closed spec fn holds_peeked(&self) -> bool {
        self.peeked_byte is Some
    }

    /// The bytes that `read_byte` has yet to hand out.
    pub open spec fn remaining(&self) -> Seq<u8> {
        self.input().skip(self.consumed() as int)
    }

    /// The latest bytes that `read_byte` has handed out, oldest first.
    pub open spec fn history(&self) -> Seq<u8> {
        recent(self.input().take(self.consumed() as int), HISTORY_LIMIT as nat)
    }

    /// The last byte that `read_byte` has handed out, if any.
    pub open spec fn latest(&self) -> Option<u8> {
        if self.consumed() == 0 {
            None
        } else {
            Some(self.input()[self.consumed() - 1])
        }
    }

    /// The fields agree with each other and with the input.
    pub closed spec fn wf(&self) -> bool {
        &&& self.offset <= self.reader@.len() <= usize::MAX
        &&& self.input_byte_counter == self.offset
        &&& self.peeked_byte matches Some(byte) ==> self.offset < self.reader@.len() && byte
            == self.reader@[self.offset as int]
        &&& self.last_byte == self.latest()
        &&& ring_bytes(self.captured_bytes) == self.history()
        &&& ring_bytes_limit(self.captured_bytes) == HISTORY_LIMIT
        &&& ring_bytes_pushed(self.captured_bytes) == self.offset
    }

    /// A well-formed reader has read no more than the input holds, and the
    /// byte it has peeked, if any, is the next one to read.
    pub proof fn lemma_bounds(&self)
        requires
            self.wf(),
        ensures
            self.consumed() <= self.input().len() <= usize::MAX,
            self.holds_peeked() ==> self.remaining().len() > 0,
            self.remaining().len() == self.input().len() - self.consumed(),
    {
    }

    /// A reader at the start of the input.
    pub fn new(reader: &'a [u8]) -> (byte_reader: Self)
        ensures
            byte_reader.wf(),
            byte_reader.input() == reader@,
            byte_reader.consumed() == 0,
            !byte_reader.holds_peeked(),
    {
        // The input's length fits a `usize`, so the counters have room
        let _ = reader.len();
        let byte_reader = Self {
            reader,
            offset: 0,
            input_byte_counter: 0,
            peeked_byte: None,
            last_byte: None,
            captured_bytes: byte_ring_new(HISTORY_LIMIT),
        };
        assert(byte_reader.history() =~= Seq::<u8>::empty());
        byte_reader
    }

    /// It reads one byte from the input.
    ///
    /// A byte that was peeked before is the one handed out, and only now is
    /// it counted and remembered. Past the end of the input the reader fails
    /// and stays as it was.
    pub fn read_byte(&mut self) -> (result: Result<u8, EndOfInput>)
        requires
            old(self).wf(),
        ensures
            final(self).wf(),
            final(self).input() == old(self).input(),
            !final(self).holds_peeked(),
            match result {
                Ok(byte) => {
                    &&& old(self).remaining().len() > 0
                    &&& byte == old(self).remaining()[0]
                    &&& final(self).consumed() == old(self).consumed() + 1
                },
                Err(_) => {
                    &&& old(self).remaining().len() == 0
                    &&& final(self).consumed() == old(self).consumed()
                },
            },
    {
        let byte = match self.peeked_byte {
            Some(byte) => byte,
            None => {
                if self.offset >= self.reader.len() {
                    return Err(EndOfInput);
                }
                self.reader[self.offset]
            },
        };
        proof {
            let read = self.reader@.take(self.offset as int);
            lemma_recent_push(read, HISTORY_LIMIT as nat, byte);
            assert(self.reader@.take(self.offset + 1) =~= read.push(byte));
        }
        self.peeked_byte = None;
        self.offset = self.offset + 1;
        self.input_byte_counter = self.input_byte_counter + 1;
        self.last_byte = Some(byte);
        byte_ring_push(&mut self.captured_bytes, byte);
        Ok(byte)
    }

    /// Peeks at the next byte in the input without consuming it.
    ///
    /// The byte is held for the next read. Nothing is counted or remembered:
    /// peeking again returns the same byte and changes nothing.
    pub fn peek_byte(&mut self) -> (result: Result<u8, EndOfInput>)
        requires
            old(self).wf(),
        ensures
            final(self).wf(),
            final(self).input() == old(self).input(),
            final(self).consumed() == old(self).consumed(),
            match result {
                Ok(byte) => {
                    &&& old(self).remaining().len() > 0
                    &&& byte == old(self).remaining()[0]
                    &&& final(self).holds_peeked()
                },
                Err(_) => {
                    &&& old(self).remaining().len() == 0
                    &&& !final(self).holds_peeked()
                },
            },
    {
        if let Some(byte) = self.peeked_byte {
            return Ok(byte);
        }
        if self.offset >= self.reader.len() {
            return Err(EndOfInput);
        }
        let byte = self.reader[self.offset];
        self.peeked_byte = Some(byte);
        Ok(byte)
    }

    /// Returns the number of bytes that have been read from the input.
    pub fn input_byte_counter(&self) -> (count: u64)
        requires
            self.wf(),
        ensures
            count == self.consumed(),
    {
        self.input_byte_counter
    }

    /// Returns a copy of the latest bytes read from the input.
    pub fn captured_bytes(&self) -> (bytes: Vec<u8>)
        requires
            self.wf(),
        ensures
            bytes@ == self.history(),
    {
        byte_ring_to_vec(&self.captured_bytes)
    }

    /// Returns the last byte that was read from the input.
    pub fn last_byte(&self) -> (byte: Option<u8>)
        requires
            self.wf(),
        ensures
            byte == self.latest(),
    {
        self.last_byte
    }
}

} // verus!
