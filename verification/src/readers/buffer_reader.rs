//! The cursor of a byte source whose buffer the caller holds.
use crate::grammar::Cursor;
use vstd::prelude::*;

verus! {

/// A cursor over a buffer that is handed to each call. It owns no bytes: the same
/// buffer is to be passed every time.
#[derive(Clone, Copy, Debug)]
pub struct BufferReader {
    start: usize,
    stop: usize,
    position: usize,
}

impl View for BufferReader {
    type V = Cursor;

    closed spec fn view(&self) -> Cursor {
        Cursor {
            start: self.start as nat,
            stop: self.stop as nat,
            position: self.position as nat,
        }
    }
}

impl BufferReader {
    /// A cursor at the beginning of a buffer, with an empty field marked.
    pub fn new() -> (reader: BufferReader)
        ensures
            reader@ == Cursor::origin(),
    {
        BufferReader { start: 0, stop: 0, position: 0 }
    }

    /// The offset of the first byte of the marked field.
    pub fn start(&self) -> (offset: usize)
        ensures
            offset == self@.start,
    {
        self.start
    }

    /// The offset behind the last byte of the marked field.
    pub fn stop(&self) -> (offset: usize)
        ensures
            offset == self@.stop,
    {
        self.stop
    }

    /// The offset of the next unread byte.
    pub fn position(&self) -> (offset: usize)
        ensures
            offset == self@.position,
    {
        self.position
    }

    /// The next unread byte of `data`, without moving.
    pub fn peek(&self, data: &[u8]) -> (byte: Option<u8>)
        ensures
            byte == self@.peek(data@),
    {
        if self.position < data.len() {
            Some(data[self.position])
        } else {
            None
        }
    }

    /// Reads the next byte of `data` and steps over it.
    pub fn pop(&mut self, data: &[u8]) -> (byte: Option<u8>)
        ensures
            byte == old(self)@.peek(data@),
            final(self)@ == old(self)@.advance(data@),
    {
        if self.position < data.len() {
            self.position += 1;
            Some(data[self.position - 1])
        } else {
            None
        }
    }

    /// Steps back over the byte read last.
    pub fn putback(&mut self)
        ensures
            final(self)@ == old(self)@.retreat(),
    {
        if self.position > 0 {
            self.position -= 1;
        }
    }

    /// Marks the next unread byte as the first of the field.
    pub fn mark_start(&mut self)
        ensures
            final(self)@ == old(self)@.mark_start(),
    {
        self.start = self.position;
    }

    /// Ends the field before the byte read last.
    pub fn mark_stop(&mut self)
        ensures
            final(self)@ == old(self)@.mark_stop(),
    {
        self.stop = if self.position > 0 {
            self.position - 1
        } else {
            0
        };
    }

    /// The marked field of `data`, borrowed from `data` itself.
    pub fn field<'a>(&self, data: &'a [u8]) -> (field: &'a [u8])
        requires
            self@.span().within(data@),
        ensures
            field@ == self@.segment(data@),
    {
        vstd::slice::slice_subrange(data, self.start, self.stop)
    }
}

} // verus!
