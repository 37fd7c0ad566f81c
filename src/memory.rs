use vstd::prelude::*;

use crate::stream::{ByteStream, StreamError};

verus! {

/// An in-memory endpoint: reads come from a fixed input, at most `chunk`
/// bytes at a time, and writes are collected, at most `chunk` bytes at a time.
pub struct MemoryStream {
    input: Vec<u8>,
    pos: usize,
    output: Vec<u8>,
    chunk: usize,
    write_shut: bool,
}

impl MemoryStream {
    /// The input bytes not yet read.
    pub closed spec fn unread(&self) -> Seq<u8> {
        self.input@.subrange(self.pos as int, self.input@.len() as int)
    }

    /// An endpoint that will yield `input` and then end of stream.
    pub fn new(input: Vec<u8>, chunk: usize) -> (r: MemoryStream)
        requires
            chunk > 0,
        ensures
            r.unread() == input@,
            r.taken().len() == 0,
            r.sent().len() == 0,
            !r.is_shut(),
    {
        let r = MemoryStream { input, pos: 0, output: Vec::new(), chunk, write_shut: false };
        assert(r.unread() =~= r.input@);
        assert(r.input@.subrange(0, 0) =~= Seq::<u8>::empty());
        r
    }

    /// Every byte written so far.
    pub fn output(&self) -> (r: &Vec<u8>)
        ensures
            r@ == self.sent(),
    {
        &self.output
    }

    /// Whether the write half has been shut down.
    pub fn write_shut(&self) -> (r: bool)
        ensures
            r == self.is_shut(),
    {
        self.write_shut
    }
}

impl ByteStream for MemoryStream {
    /// The input bytes read so far.
    closed spec fn taken(&self) -> Seq<u8> {
        self.input@.subrange(0, self.pos as int)
    }

    closed spec fn sent(&self) -> Seq<u8> {
        self.output@
    }

    closed spec fn is_shut(&self) -> bool {
        self.write_shut
    }

    fn read_bytes(&mut self, max: usize) -> (r: Result<Vec<u8>, StreamError>) {
        let mut out: Vec<u8> = Vec::new();
        if self.pos >= self.input.len() {
            return Ok(out);
        }
        let mut n = self.input.len() - self.pos;
        if n > max {
            n = max;
        }
        if n > self.chunk {
            n = self.chunk;
        }
        let start = self.pos;
        let input = &self.input;
        let len = input.len();
        let mut i: usize = 0;
        while i < n
            invariant
                len == input@.len(),
                start + n <= len,
                i <= n,
                out@ == input@.subrange(start as int, start + i),
            decreases n - i,
        {
            out.push(input[start + i]);
            i = i + 1;
            assert(out@ =~= input@.subrange(start as int, start + i));
        }
        self.pos = start + n;
        assert(self.input@.subrange(0, self.pos as int) =~= self.input@.subrange(0, start as int)
            + out@);
        Ok(out)
    }

    fn write_bytes(&mut self, data: &[u8]) -> (r: Result<usize, StreamError>) {
        if self.write_shut {
            return Err(StreamError::WriteShut);
        }
        let mut n = data.len();
        if n > self.chunk {
            n = self.chunk;
        }
        let ghost before = self.output@;
        let mut i: usize = 0;
        while i < n
            invariant
                n <= data@.len(),
                i <= n,
                self.output@ == before + data@.subrange(0, i as int),
                self.write_shut == old(self).write_shut,
                self.input == old(self).input,
                self.pos == old(self).pos,
            decreases n - i,
        {
            self.output.push(data[i]);
            i = i + 1;
            assert(self.output@ =~= before + data@.subrange(0, i as int));
        }
        Ok(n)
    }

    fn shutdown_write(&mut self) -> (r: Result<(), StreamError>) {
        self.write_shut = true;
        Ok(())
    }
}

} // verus!
