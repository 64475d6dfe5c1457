//! A writer that appends text to a string.
use super::ring::{
    char_ring_new, char_ring_push, char_ring_to_vec, ring_chars, ring_chars_limit,
    ring_chars_pushed,
};
use super::{error::Error, writer::Writer};
use super::{lemma_recent_push, recent, HISTORY_LIMIT};
use crate::text::{
    lemma_encode_utf8_concat, lemma_encode_utf8_len, lemma_encode_utf8_push, push_char,
};
use ringbuffer::AllocRingBuffer;
use vstd::prelude::*;
use vstd::slice::slice_to_vec;
use vstd::std_specs::iter::IteratorSpec;
use vstd::utf8::encode_utf8;

verus! {

/// A writer whose output is a string.
///
/// The string may hold text already; the writer appends to it and counts and
/// remembers only what it appended. A byte is written as the char with the
/// same number.
pub struct StringWriter {
    /// The output: what it held at first, then everything written.
    writer: String,
    /// How many chars the output held when the writer was created.
    kept: Ghost<nat>,
    /// Number of bytes written to the output.
    output_byte_counter: u64,
    /// The last char written to the output.
    last_char: Option<char>,
    /// The latest chars written to the output.
    captured_chars: AllocRingBuffer<char>,
}

impl StringWriter {
    /// The whole output: what it held at first, then everything written.
    pub closed spec fn output(&self) -> Seq<char> {
        self.writer@
    }

    /// The text that the output held before the writer was created.
    pub closed spec fn preserved_text(&self) -> Seq<char> {
        self.writer@.take(self.kept@ as int)
    }

    /// The chars written through this writer, in order.
    pub closed spec fn text(&self) -> Seq<char> {
        self.writer@.skip(self.kept@ as int)
    }

    /// The latest chars written, oldest first.
    pub open spec fn recent_chars(&self) -> Seq<char> {
        recent(self.text(), HISTORY_LIMIT as nat)
    }

    /// The last char written, if any was.
    pub open spec fn latest(&self) -> Option<char> {
        if self.text().len() == 0 {
            None
        } else {
            Some(self.text().last())
        }
    }

    /// A writer that appends to the given output.
    pub fn new(writer: String) -> (string_writer: Self)
        ensures
            string_writer.wf(),
            string_writer.infallible(),
            string_writer.output() == writer@,
            string_writer.preserved_text() == writer@,
            string_writer.text() == Seq::<char>::empty(),
            string_writer.emitted() == Seq::<u8>::empty(),
            string_writer.position() == 0,
    {
        let ghost kept = writer@.len();
        let string_writer = Self {
            writer,
            kept: Ghost(kept),
            output_byte_counter: 0,
            last_char: None,
            captured_chars: char_ring_new(HISTORY_LIMIT),
        };
        assert(string_writer.text() =~= Seq::<char>::empty());
        string_writer
    }

    /// Hands the output back.
    pub fn into_inner(self) -> (writer: String)
        requires
            self.wf(),
        ensures
            writer@ == self.output(),
            writer@ == self.preserved_text() + self.text(),
    {
        self.writer
    }

    /// Returns the number of bytes that have been written to the output.
    pub fn output_byte_counter(&self) -> (count: u64)
        requires
            self.wf(),
        ensures
            count == self.position(),
    {
        self.output_byte_counter
    }

    /// Returns a copy of the latest chars that have been written to the
    /// output.
    pub fn captured_chars(&self) -> (chars: Vec<char>)
        requires
            self.wf(),
        ensures
            chars@ == self.recent_chars(),
    {
        char_ring_to_vec(&self.captured_chars)
    }

    /// Returns the last char that was written to the output.
    pub fn last_byte(&self) -> (item: Option<char>)
        requires
            self.wf(),
        ensures
            item == self.latest(),
    {
        self.last_char
    }

    /// The output is the text it held at first followed by the text written,
    /// and so are their encodings.
    proof fn lemma_split(&self)
        requires
            self.kept@ <= self.writer@.len(),
        ensures
            self.writer@ == self.preserved_text() + self.text(),
            encode_utf8(self.writer@) == encode_utf8(self.preserved_text()) + encode_utf8(
                self.text(),
            ),
            self.text().len() <= encode_utf8(self.text()).len() <= encode_utf8(self.writer@).len(),
    {
        lemma_encode_utf8_concat(self.preserved_text(), self.text());
        lemma_encode_utf8_len(self.text());
    }

    /// Everything but the counter agrees with the output.
    spec fn tracks(&self) -> bool {
        &&& self.kept@ <= self.writer@.len()
        &&& self.last_char == self.latest()
        &&& ring_chars(self.captured_chars) == self.recent_chars()
        &&& ring_chars_limit(self.captured_chars) == HISTORY_LIMIT
        &&& ring_chars_pushed(self.captured_chars) == self.text().len()
    }

    /// Appends one char to the output and remembers it. The counter is left
    /// to the caller.
    fn append_char(&mut self, item: char)
        requires
            old(self).tracks(),
        ensures
            final(self).tracks(),
            final(self).text() == old(self).text().push(item),
            final(self).preserved_text() == old(self).preserved_text(),
            final(self).output_byte_counter == old(self).output_byte_counter,
            encode_utf8(final(self).text()).len() <= usize::MAX,
    {
        push_char(&mut self.writer, item);
        // The output's length in bytes fits a `usize`, so the counters have room
        let _ = self.writer.as_str().as_bytes().len();
        proof {
            self.lemma_split();
            assert(self.text() =~= old(self).text().push(item));
            lemma_recent_push(old(self).text(), HISTORY_LIMIT as nat, item);
        }
        self.last_char = Some(item);
        char_ring_push(&mut self.captured_chars, item);
    }
}

impl Writer for StringWriter {
    closed spec fn wf(&self) -> bool {
        &&& self.tracks()
        &&& self.output_byte_counter <= encode_utf8(self.text()).len()
    }

    open spec fn preserved(&self) -> Seq<u8> {
        encode_utf8(self.preserved_text())
    }

    open spec fn emitted(&self) -> Seq<u8> {
        encode_utf8(self.text())
    }

    closed spec fn position(&self) -> nat {
        self.output_byte_counter as nat
    }

    open spec fn history(&self) -> Seq<u8> {
        encode_utf8(self.recent_chars())
    }

    open spec fn infallible(&self) -> bool {
        true
    }

    /// Appends the char whose number is the byte, and counts one byte.
    fn write_byte(&mut self, byte: u8) -> (result: Result<(), Error>)
        ensures
            result is Ok,
            final(self).text() == old(self).text().push(byte as char),
            final(self).preserved_text() == old(self).preserved_text(),
    {
        let item = byte as char;
        self.append_char(item);
        proof {
            lemma_encode_utf8_push(old(self).text(), item);
        }
        self.output_byte_counter = self.output_byte_counter + 1;
        Ok(())
    }

    /// Appends the string, counts its bytes and remembers its chars.
    fn write_str(&mut self, value: &str) -> (result: Result<(), Error>)
        ensures
            result is Ok,
            final(self).text() == old(self).text() + value@,
            final(self).preserved_text() == old(self).preserved_text(),
    {
        broadcast use vstd::string::axiom_spec_iter, vstd::string::next_postcondition;

        // The output's length in bytes fits a `usize`, so the counters have room
        let _ = self.writer.as_str().as_bytes().len();
        let mut chars = value.chars();
        let ghost mut done: Seq<char> = Seq::empty();
        proof {
            self.lemma_split();
        }
        loop
            invariant
                self.tracks(),
                self.preserved_text() == old(self).preserved_text(),
                self.output_byte_counter == old(self).output_byte_counter,
                self.text() == old(self).text() + done,
                done + chars.remaining() == value@,
                chars.obeys_prophetic_iter_laws(),
                chars.decrease() is Some,
                encode_utf8(self.text()).len() <= usize::MAX,
            ensures
                self.tracks(),
                self.preserved_text() == old(self).preserved_text(),
                self.output_byte_counter == old(self).output_byte_counter,
                self.text() == old(self).text() + value@,
                encode_utf8(self.text()).len() <= usize::MAX,
            decreases chars.decrease()->0,
        {
            match chars.next() {
                None => {
                    break ;
                },
                Some(item) => {
                    self.append_char(item);
                    proof {
                        assert(old(self).text() + done.push(item) =~= (old(self).text()
                            + done).push(item));
                        done = done.push(item);
                    }
                },
            }
        }
        proof {
            lemma_encode_utf8_concat(old(self).text(), value@);
        }
        let length = value.len();
        self.output_byte_counter = self.output_byte_counter + length as u64;
        Ok(())
    }

    fn output_byte_counter(&self) -> (count: u64) {
        self.output_byte_counter
    }

    /// The latest chars written, each as its UTF-8 encoding.
    fn captured_bytes(&self) -> (bytes: Vec<u8>) {
        let chars = char_ring_to_vec(&self.captured_chars);
        let mut text = String::new();
        let mut index: usize = 0;
        while index < chars.len()
            invariant
                index <= chars@.len(),
                text@ == chars@.take(index as int),
            decreases chars@.len() - index,
        {
            push_char(&mut text, chars[index]);
            index = index + 1;
        }
        assert(chars@.take(index as int) =~= chars@);
        slice_to_vec(text.as_str().as_bytes())
    }
}

} // verus!
